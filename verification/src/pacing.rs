//! The queues of the pacer: packets to send again, control packets, and a pair
//! of lanes for each destination, served in turn by deficit round robin.
//!
//! Times are microseconds.

use crate::addr::Endpoint;
use crate::apd;
use crate::apd::{ApdConfig, ApdState, ShedConfig};
use crate::engine_state;
use crate::lane;
use crate::lane::{LaneConfig, PeerPopKind, QueuedData};
use crate::lane_map;
use crate::lane_map::LaneMap;
use crate::pacing_defaults;
use crate::pacing_defaults::{
    PaceRateMode, DEFAULT_DRR_RTT_AWARE, DEFAULT_DRR_SMALL_PACKET_PRIORITY,
    DEFAULT_DRR_SMALL_PACKET_THRESHOLD_BYTES, DEFAULT_MAX_TICK_WORK_US,
    DEFAULT_MIN_CONTROL_RESERVED_BYTES_PER_TICK, DEFAULT_MIN_RETRANSMIT_RESERVED_BYTES_PER_TICK,
    DEFAULT_PACE_BURST_PER_TICK, DEFAULT_PACE_MAX_QUEUE, DEFAULT_PACE_TARGET_PPS,
    DEFAULT_PACE_TICK_US, DRR_SMALL_PACKET_THRESHOLD_MAX, DRR_SMALL_PACKET_THRESHOLD_MIN,
    PACE_RESERVED_BYTES_PER_TICK_MAX,
};
use std::collections::VecDeque;
use vstd::prelude::*;

verus! {

/// The smallest number of bytes that a destination gets at its turn.
pub const MIN_DRR_QUANTUM: usize = 1500;

/// For how many packets the queue of a destination has room at least, where the
/// queues are large enough.
pub const MIN_DATA_QUEUE_FOR_FEC_GROUP: usize = 32;

/// How long a control packet waits before it goes out twice as often.
pub const CONTROL_AGING_US: u64 = 8_000;

/// How many packets of each kind the queues hold, where they hold `total`.
pub open spec fn split_of(total: nat) -> (nat, nat) {
    let t = if total < 2 {
        2
    } else {
        total
    };
    let two_thirds = if t * 2 / 3 < 1 {
        1
    } else {
        t * 2 / 3
    };
    let data = if t >= MIN_DATA_QUEUE_FOR_FEC_GROUP * 2 && two_thirds
        < MIN_DATA_QUEUE_FOR_FEC_GROUP {
        MIN_DATA_QUEUE_FOR_FEC_GROUP as nat
    } else {
        two_thirds
    };
    (data, (t - data) as nat)
}

/// Splits the queues between data and control packets: two thirds are for data.
pub fn queue_split_limits(total: usize) -> (out: (usize, usize))
    requires
        total * 2 <= usize::MAX,
    ensures
        (out.0 as nat, out.1 as nat) == split_of(total as nat),
        out.0 >= 1,
        out.1 >= 1,
        out.0 + out.1 == if total < 2 {
            2
        } else {
            total
        },
{
    let t: usize = if total < 2 {
        2
    } else {
        total
    };
    let mut data: usize = t * 2 / 3;
    if data < 1 {
        data = 1;
    }
    if t >= MIN_DATA_QUEUE_FOR_FEC_GROUP * 2 && data < MIN_DATA_QUEUE_FOR_FEC_GROUP {
        data = MIN_DATA_QUEUE_FOR_FEC_GROUP;
    }
    (data, t - data)
}

/// How full the queues are.
#[derive(Clone, Copy, Debug, PartialEq, Eq, Structural)]
pub struct PacingQueueSnapshot {
    pub data_queued: usize,
    pub control_queued: usize,
    pub retransmit_queued: usize,
    pub queue_capacity: usize,
}

/// How the pacer is set.
#[derive(Clone, Copy, Debug, PartialEq, Eq, Structural)]
pub struct PacingConfig {
    pub tick_us: u64,
    pub target_pps: u64,
    pub base_max_burst: u64,
    pub max_queue_packets: usize,
    pub max_data_queue_packets: usize,
    pub max_control_queue_packets: usize,
    pub max_retransmit_queue_packets: usize,
    pub drr_quantum: usize,
    pub drr_enabled: bool,
    pub drr_small_packet_priority: bool,
    pub drr_small_packet_threshold_bytes: usize,
    pub drr_rtt_aware: bool,
    pub min_control_reserved_bytes_per_tick: usize,
    pub min_retransmit_reserved_bytes_per_tick: usize,
    pub max_tick_work_us: u64,
    pub apd: ApdConfig,
    pub shed: ShedConfig,
    pub pace_rate_mode: PaceRateMode,
    pub target_bps: u64,
}

/// The settings with queues that are split anew.
pub open spec fn splits_refreshed(c: PacingConfig) -> PacingConfig {
    let (data, control) = split_of(c.max_queue_packets as nat);
    PacingConfig {
        max_data_queue_packets: data as usize,
        max_control_queue_packets: control as usize,
        max_retransmit_queue_packets: if control / 3 < 4 {
            4
        } else {
            (control / 3) as usize
        },
        ..c
    }
}

/// Settings that the pacer can work with.
pub open spec fn config_sane(c: PacingConfig) -> PacingConfig {
    let a = apd::sane(c.apd);
    splits_refreshed(
        PacingConfig {
            drr_quantum: if c.drr_quantum < MIN_DRR_QUANTUM {
                MIN_DRR_QUANTUM
            } else {
                c.drr_quantum
            },
            drr_small_packet_threshold_bytes: pacing_defaults::clamped(
                c.drr_small_packet_threshold_bytes as int,
                DRR_SMALL_PACKET_THRESHOLD_MIN as int,
                DRR_SMALL_PACKET_THRESHOLD_MAX as int,
            ) as usize,
            min_control_reserved_bytes_per_tick: pacing_defaults::clamped(
                c.min_control_reserved_bytes_per_tick as int,
                0,
                PACE_RESERVED_BYTES_PER_TICK_MAX as int,
            ) as usize,
            min_retransmit_reserved_bytes_per_tick: pacing_defaults::clamped(
                c.min_retransmit_reserved_bytes_per_tick as int,
                0,
                PACE_RESERVED_BYTES_PER_TICK_MAX as int,
            ) as usize,
            apd: a,
            shed: apd::shed_sane(c.shed, a),
            ..c
        },
    )
}

impl Default for PacingConfig {
    fn default() -> (out: Self)
        ensures
            out.tick_us == DEFAULT_PACE_TICK_US,
            out.target_pps == DEFAULT_PACE_TARGET_PPS,
            out.base_max_burst == DEFAULT_PACE_BURST_PER_TICK,
            out.max_queue_packets == DEFAULT_PACE_MAX_QUEUE,
            out == splits_refreshed(out),
            out.drr_quantum == MIN_DRR_QUANTUM,
            out.drr_enabled,
            out.drr_small_packet_priority == DEFAULT_DRR_SMALL_PACKET_PRIORITY,
            out.drr_small_packet_threshold_bytes == DEFAULT_DRR_SMALL_PACKET_THRESHOLD_BYTES,
            out.drr_rtt_aware == DEFAULT_DRR_RTT_AWARE,
            out.min_control_reserved_bytes_per_tick == DEFAULT_MIN_CONTROL_RESERVED_BYTES_PER_TICK,
            out.min_retransmit_reserved_bytes_per_tick
                == DEFAULT_MIN_RETRANSMIT_RESERVED_BYTES_PER_TICK,
            out.max_tick_work_us == DEFAULT_MAX_TICK_WORK_US,
            call_ensures(ApdConfig::default, (), out.apd),
            call_ensures(ShedConfig::default, (), out.shed),
            out.pace_rate_mode == PaceRateMode::Bytes,
            out.target_bps == 1_000_000,
    {
        let max_queue_packets: usize = DEFAULT_PACE_MAX_QUEUE as usize;
        let (data, control) = queue_split_limits(max_queue_packets);
        PacingConfig {
            tick_us: DEFAULT_PACE_TICK_US as u64,
            target_pps: DEFAULT_PACE_TARGET_PPS as u64,
            base_max_burst: DEFAULT_PACE_BURST_PER_TICK as u64,
            max_queue_packets,
            max_data_queue_packets: data,
            max_control_queue_packets: control,
            max_retransmit_queue_packets: third_or_four(control),
            drr_quantum: MIN_DRR_QUANTUM,
            drr_enabled: true,
            drr_small_packet_priority: DEFAULT_DRR_SMALL_PACKET_PRIORITY,
            drr_small_packet_threshold_bytes: DEFAULT_DRR_SMALL_PACKET_THRESHOLD_BYTES as usize,
            drr_rtt_aware: DEFAULT_DRR_RTT_AWARE,
            min_control_reserved_bytes_per_tick: DEFAULT_MIN_CONTROL_RESERVED_BYTES_PER_TICK
                as usize,
            min_retransmit_reserved_bytes_per_tick: DEFAULT_MIN_RETRANSMIT_RESERVED_BYTES_PER_TICK
                as usize,
            max_tick_work_us: DEFAULT_MAX_TICK_WORK_US,
            apd: ApdConfig::default(),
            shed: ShedConfig::default(),
            pace_rate_mode: PaceRateMode::Bytes,
            target_bps: 1_000_000,
        }
    }
}

fn third_or_four(n: usize) -> (out: usize)
    ensures
        out == if n / 3 < 4 {
            4
        } else {
            n / 3
        },
{
    if n / 3 < 4 {
        4
    } else {
        n / 3
    }
}

impl PacingConfig {
    /// Splits the queues anew.
    pub fn refresh_queue_splits(&mut self)
        requires
            old(self).max_queue_packets * 2 <= usize::MAX,
        ensures
            *final(self) == splits_refreshed(*old(self)),
    {
        let (data, control) = queue_split_limits(self.max_queue_packets);
        self.max_data_queue_packets = data;
        self.max_control_queue_packets = control;
        self.max_retransmit_queue_packets = third_or_four(control);
    }

    /// Makes the settings such that the pacer can work with them.
    pub fn sanitize(&mut self)
        requires
            old(self).max_queue_packets * 2 <= usize::MAX,
        ensures
            *final(self) == config_sane(*old(self)),
    {
        if self.drr_quantum < MIN_DRR_QUANTUM {
            self.drr_quantum = MIN_DRR_QUANTUM;
        }
        if self.drr_small_packet_threshold_bytes < DRR_SMALL_PACKET_THRESHOLD_MIN {
            self.drr_small_packet_threshold_bytes = DRR_SMALL_PACKET_THRESHOLD_MIN;
        }
        if self.drr_small_packet_threshold_bytes > DRR_SMALL_PACKET_THRESHOLD_MAX {
            self.drr_small_packet_threshold_bytes = DRR_SMALL_PACKET_THRESHOLD_MAX;
        }
        let most: usize = PACE_RESERVED_BYTES_PER_TICK_MAX as usize;
        if self.min_control_reserved_bytes_per_tick > most {
            self.min_control_reserved_bytes_per_tick = most;
        }
        if self.min_retransmit_reserved_bytes_per_tick > most {
            self.min_retransmit_reserved_bytes_per_tick = most;
        }
        self.refresh_queue_splits();
        self.apd.sanitize();
        self.shed.sanitize(self.apd);
    }
}

/// A control packet that waits, or a packet to send again.
pub struct QueuedPacket {
    pub pkt: Vec<u8>,
    pub dest: Endpoint,
    pub enqueued_at: u64,
}

/// The packet to send next.
pub enum NextPacket {
    Control(QueuedPacket),
    Data { pkt: Vec<u8>, dest: Endpoint, enqueued_at: u64 },
}

/// What the pacer counts.
#[derive(Clone, Copy, Debug, PartialEq, Eq, Structural)]
pub struct PacingCounters {
    pub dropped_packets: u64,
    pub dropped_data: u64,
    pub dropped_control_normal: u64,
    pub dropped_control_retransmit: u64,
    pub reserved_ctrl_sends: u64,
    pub reserved_rtx_sends: u64,
    pub drr_small_priority_pops: u64,
    pub drr_bulk_force_pops: u64,
    pub shed_sojourn: u64,
    pub drr_rtt_scale_applied: u64,
    pub cc_rate_limited_events: u64,
}

/// Counters that have counted nothing.
pub open spec fn no_counts() -> PacingCounters {
    PacingCounters {
        dropped_packets: 0,
        dropped_data: 0,
        dropped_control_normal: 0,
        dropped_control_retransmit: 0,
        reserved_ctrl_sends: 0,
        reserved_rtx_sends: 0,
        drr_small_priority_pops: 0,
        drr_bulk_force_pops: 0,
        shed_sojourn: 0,
        drr_rtt_scale_applied: 0,
        cc_rate_limited_events: 0,
    }
}

/// The terms on which a destination is served at a tick.
#[derive(Clone, Copy, Debug, PartialEq, Eq, Structural)]
pub struct PeerTerms {
    /// Congestion control lets it send.
    pub open: bool,
    /// How many bytes it gets at its turn.
    pub quantum: usize,
    /// Its round trip time changed how many.
    pub scaled: bool,
}

/// The queues of the pacer.
pub struct PacingEngine {
    pub config: PacingConfig,
    pub control_q: VecDeque<QueuedPacket>,
    pub retransmit_q: VecDeque<QueuedPacket>,
    pub peer_queues: LaneMap,
    /// For how many destinations packets wait.
    pub non_empty_peers: usize,
    pub consecutive_errors: u32,
    pub interleave_counter: u8,
    /// Whose turn it is.
    pub drr_cursor: usize,
    pub apd: ApdState,
    pub counters: PacingCounters,
}

/// The queues of the pacer.
#[verifier::ext_equal]
pub ghost struct PacerView {
    pub cfg: PacingConfig,
    pub control: Seq<QueuedPacket>,
    pub rtx: Seq<QueuedPacket>,
    pub lanes: Seq<(Endpoint, lane::LaneView)>,
    pub non_empty: nat,
    pub errors: u32,
    pub interleave: u8,
    pub cursor: usize,
    pub apd: ApdState,
    pub n: PacingCounters,
}

impl View for PacingEngine {
    type V = PacerView;

    open spec fn view(&self) -> PacerView {
        PacerView {
            cfg: self.config,
            control: self.control_q@,
            rtx: self.retransmit_q@,
            lanes: self.peer_queues@,
            non_empty: self.non_empty_peers as nat,
            errors: self.consecutive_errors,
            interleave: self.interleave_counter,
            cursor: self.drr_cursor,
            apd: self.apd,
            n: self.counters,
        }
    }
}

/// For how many of the first `n` destinations packets wait.
pub open spec fn waiting(s: Seq<(Endpoint, lane::LaneView)>, n: nat) -> nat
    decreases n,
{
    if n == 0 {
        0
    } else {
        waiting(s, (n - 1) as nat) + if lane::lane_len(s[n - 1].1) > 0 {
            1nat
        } else {
            0nat
        }
    }
}

/// How many packets wait for the first `n` destinations.
pub open spec fn data_queued(s: Seq<(Endpoint, lane::LaneView)>, n: nat) -> nat
    decreases n,
{
    if n == 0 {
        0
    } else {
        data_queued(s, (n - 1) as nat) + lane::lane_len(s[n - 1].1)
    }
}

/// How many packets wait.
pub open spec fn total_queued(v: PacerView) -> nat {
    data_queued(v.lanes, v.lanes.len()) + v.control.len() + v.rtx.len()
}

/// What a change of one lane does to the counts.
pub proof fn counts_after_update(
    s: Seq<(Endpoint, lane::LaneView)>,
    i: int,
    l: lane::LaneView,
    n: nat,
)
    requires
        0 <= i < s.len(),
        n <= s.len(),
    ensures
        ({
            let t = s.update(i, (s[i].0, l));
            let a = if lane::lane_len(s[i].1) > 0 {
                1int
            } else {
                0int
            };
            let b = if lane::lane_len(l) > 0 {
                1int
            } else {
                0int
            };
            &&& waiting(t, n) == waiting(s, n) + if i < n {
                b - a
            } else {
                0int
            }
            &&& data_queued(t, n) == data_queued(s, n) + if i < n {
                lane::lane_len(l) - lane::lane_len(s[i].1)
            } else {
                0int
            }
            &&& i < n ==> waiting(s, n) >= a && data_queued(s, n) >= lane::lane_len(s[i].1)
        }),
    decreases n,
{
    if n > 0 {
        counts_after_update(s, i, l, (n - 1) as nat);
    }
}

/// The counts of the first `n` depend on them alone.
pub proof fn counts_same(
    s: Seq<(Endpoint, lane::LaneView)>,
    t: Seq<(Endpoint, lane::LaneView)>,
    n: nat,
)
    requires
        n <= s.len(),
        n <= t.len(),
        forall|i: int| 0 <= i < n ==> (#[trigger] s[i]).1 == t[i].1,
    ensures
        waiting(s, n) == waiting(t, n),
        data_queued(s, n) == data_queued(t, n),
    decreases n,
{
    if n > 0 {
        counts_same(s, t, (n - 1) as nat);
    }
}

/// What taking out one lane does to the counts.
pub proof fn counts_after_remove(s: Seq<(Endpoint, lane::LaneView)>, i: int)
    requires
        0 <= i < s.len(),
    ensures
        waiting(s.remove(i), (s.len() - 1) as nat) == waiting(s, s.len()) - if lane::lane_len(
            s[i].1,
        ) > 0 {
            1int
        } else {
            0int
        },
    decreases s.len(),
{
    let n = s.len();
    if i == n - 1 {
        counts_same(s.remove(i), s, (n - 1) as nat);
    } else {
        let r = s.drop_last();
        counts_after_remove(r, i);
        assert(s.remove(i).drop_last() =~= r.remove(i));
        counts_same(s.remove(i), r.remove(i), (n - 2) as nat);
        counts_same(s, r, (n - 1) as nat);
        assert(s.remove(i)[n - 2] == s[n - 1]);
    }
}

/// No more destinations wait than there are.
pub proof fn waiting_at_most(s: Seq<(Endpoint, lane::LaneView)>, n: nat)
    ensures
        waiting(s, n) <= n,
    decreases n,
{
    if n > 0 {
        waiting_at_most(s, (n - 1) as nat);
    }
}

/// How the lanes are served.
pub open spec fn lane_cfg(c: PacingConfig) -> LaneConfig {
    LaneConfig {
        priority_on: c.drr_small_packet_priority,
        threshold: c.drr_small_packet_threshold_bytes,
    }
}

/// How many packets wait for a destination at most.
pub open spec fn lane_cap(c: PacingConfig) -> nat {
    if c.max_data_queue_packets < 1 {
        1
    } else {
        c.max_data_queue_packets as nat
    }
}

/// The destination has lanes.
pub open spec fn has_lane(s: Seq<(Endpoint, lane::LaneView)>, ep: Endpoint) -> bool {
    exists|i: int| lane_map::lane_at(s, ep, i)
}

/// Where the destination's lanes are.
pub open spec fn lane_ix(s: Seq<(Endpoint, lane::LaneView)>, ep: Endpoint) -> int {
    choose|i: int| lane_map::lane_at(s, ep, i)
}

/// The lanes, with those of the destination.
pub open spec fn with_lane(s: Seq<(Endpoint, lane::LaneView)>, ep: Endpoint) -> Seq<
    (Endpoint, lane::LaneView),
> {
    if has_lane(s, ep) {
        s
    } else {
        s.push((ep, lane::empty_lane()))
    }
}

/// The lanes with a change at `i`.
pub open spec fn lanes_set(s: Seq<(Endpoint, lane::LaneView)>, i: int, l: lane::LaneView) -> Seq<
    (Endpoint, lane::LaneView),
> {
    s.update(i, (s[i].0, l))
}

/// The lane with what is new about the path.
pub open spec fn hinted(l: lane::LaneView, rtt: Option<u32>, qd: Option<u32>) -> lane::LaneView {
    lane::LaneView {
        rtt_bits: if rtt is Some {
            rtt
        } else {
            l.rtt_bits
        },
        queuing_delay_bits: if qd is Some {
            qd
        } else {
            l.queuing_delay_bits
        },
        ..l
    }
}

/// One more destination waits, if its lane was empty.
pub open spec fn non_empty_after(n: nat, before: lane::LaneView) -> nat {
    if lane::lane_len(before) == 0 {
        n + 1
    } else {
        n
    }
}

/// A packet for a destination comes.
pub open spec fn enqueued(
    v: PacerView,
    e: QueuedData,
    dest: Endpoint,
    rtt: Option<u32>,
    qd: Option<u32>,
) -> PacerView {
    let s = with_lane(v.lanes, dest);
    let i = lane_ix(s, dest);
    let l = hinted(s[i].1, rtt, qd);
    let full = lane::lane_len(l) >= lane_cap(v.cfg);
    PacerView {
        lanes: lanes_set(s, i, lane::lane_pushed(l, e, lane_cap(v.cfg), lane_cfg(v.cfg))),
        non_empty: non_empty_after(v.non_empty, l),
        n: if full {
            PacingCounters {
                dropped_packets: apd::bumped(v.n.dropped_packets),
                dropped_data: apd::bumped(v.n.dropped_data),
                ..v.n
            }
        } else {
            v.n
        },
        ..v
    }
}

/// The lane with `n` packets of a batch at its end.
pub open spec fn batch_appended(
    l: lane::LaneView,
    pkts: Seq<Vec<u8>>,
    now: u64,
    cfg: LaneConfig,
    n: nat,
) -> lane::LaneView
    decreases n,
{
    if n == 0 {
        l
    } else {
        lane::appended(
            batch_appended(l, pkts, now, cfg, (n - 1) as nat),
            QueuedData { pkt: pkts[n - 1], enqueued_at: now },
            cfg,
        )
    }
}

/// A batch of packets for a destination comes: all of them find room, or none is
/// taken.
pub open spec fn batch_enqueued(
    v: PacerView,
    pkts: Seq<Vec<u8>>,
    dest: Endpoint,
    rtt: Option<u32>,
    qd: Option<u32>,
    now: u64,
) -> (bool, PacerView) {
    let s = with_lane(v.lanes, dest);
    let i = lane_ix(s, dest);
    let l = hinted(s[i].1, rtt, qd);
    if pkts.len() == 0 {
        (true, v)
    } else if lane::lane_len(l) + pkts.len() > lane_cap(v.cfg) {
        (false, PacerView { lanes: lanes_set(s, i, l), ..v })
    } else {
        (
            true,
            PacerView {
                lanes: lanes_set(s, i, batch_appended(l, pkts, now, lane_cfg(v.cfg), pkts.len())),
                non_empty: non_empty_after(v.non_empty, l),
                ..v
            },
        )
    }
}

/// A queue that has room for one more after its oldest packets were dropped.
pub open spec fn trimmed_for(q: Seq<QueuedPacket>, cap: nat) -> Seq<QueuedPacket> {
    if q.len() >= cap {
        q.skip(q.len() - cap + 1)
    } else {
        q
    }
}

/// A counter after `k` more were counted.
pub open spec fn counted(n: u64, k: nat) -> u64 {
    if n + k > u64::MAX {
        u64::MAX
    } else {
        (n + k) as u64
    }
}

/// A bound of a queue that is not zero.
pub open spec fn cap_of(n: usize) -> nat {
    if n < 1 {
        1
    } else {
        n as nat
    }
}

/// A control packet comes, or a packet to send again: where the queue is full,
/// its oldest packets are dropped.
pub open spec fn control_enqueued(v: PacerView, p: QueuedPacket, retransmit: bool) -> (
    bool,
    PacerView,
) {
    if retransmit {
        let q = trimmed_for(v.rtx, cap_of(v.cfg.max_retransmit_queue_packets));
        let k = (v.rtx.len() - q.len()) as nat;
        (
            k > 0,
            PacerView {
                rtx: q.push(p),
                n: PacingCounters {
                    dropped_packets: counted(v.n.dropped_packets, k),
                    dropped_control_retransmit: counted(v.n.dropped_control_retransmit, k),
                    ..v.n
                },
                ..v
            },
        )
    } else {
        let q = trimmed_for(v.control, cap_of(v.cfg.max_control_queue_packets));
        let k = (v.control.len() - q.len()) as nat;
        (
            k > 0,
            PacerView {
                control: q.push(p),
                interleave: if v.control.len() == 0 {
                    3
                } else {
                    v.interleave
                },
                n: PacingCounters {
                    dropped_packets: counted(v.n.dropped_packets, k),
                    dropped_control_normal: counted(v.n.dropped_control_normal, k),
                    ..v.n
                },
                ..v
            },
        )
    }
}

/// Whose turn it is after a destination is gone.
pub open spec fn cursor_after_remove(cursor: usize, idx: int, left: nat) -> usize {
    let c = if cursor > 0 && idx < cursor {
        cursor - 1
    } else {
        cursor as int
    };
    if left == 0 {
        0
    } else {
        (c % left as int) as usize
    }
}

/// The destination is gone, with the packets that wait for it.
pub open spec fn peer_removed(v: PacerView, dest: Endpoint) -> PacerView {
    if has_lane(v.lanes, dest) {
        let i = lane_ix(v.lanes, dest);
        PacerView {
            lanes: v.lanes.remove(i),
            non_empty: if lane::lane_len(v.lanes[i].1) > 0 {
                (v.non_empty - 1) as nat
            } else {
                v.non_empty
            },
            cursor: cursor_after_remove(v.cursor, i, (v.lanes.len() - 1) as nat),
            ..v
        }
    } else {
        v
    }
}

/// The next turn.
pub open spec fn next_turn(cursor: usize) -> usize {
    if cursor == usize::MAX {
        0
    } else {
        (cursor + 1) as usize
    }
}

/// The destination at `i` sends its next packet.
pub open spec fn served(v: PacerView, i: int, now: u64) -> (NextPacket, PacerView) {
    let (dest, l) = v.lanes[i];
    let c = lane_cfg(v.cfg);
    let e = lane::lane_front(l, c, now);
    let rest = lane::lane_popped(l, c, now);
    let kind = lane::pop_kind(l, c, now);
    (
        NextPacket::Data { pkt: e.pkt, dest, enqueued_at: e.enqueued_at },
        PacerView {
            lanes: lanes_set(v.lanes, i, rest),
            non_empty: if lane::lane_len(rest) == 0 {
                (v.non_empty - 1) as nat
            } else {
                v.non_empty
            },
            n: PacingCounters {
                drr_small_priority_pops: if kind == PeerPopKind::SmallPriority {
                    apd::bumped(v.n.drr_small_priority_pops)
                } else {
                    v.n.drr_small_priority_pops
                },
                drr_bulk_force_pops: if kind == PeerPopKind::BulkForced {
                    apd::bumped(v.n.drr_bulk_force_pops)
                } else {
                    v.n.drr_bulk_force_pops
                },
                ..v.n
            },
            ..v
        },
    )
}

/// Congestion control held a destination back.
pub open spec fn held_back(v: PacerView) -> PacerView {
    PacerView {
        n: PacingCounters {
            cc_rate_limited_events: apd::bumped(v.n.cc_rate_limited_events),
            ..v.n
        },
        ..v
    }
}

/// A destination's turn, where bytes are not counted.
pub open spec fn plain_turn(v: PacerView, i: int, open: bool, now: u64) -> (
    Option<NextPacket>,
    PacerView,
) {
    let l = v.lanes[i].1;
    if lane::lane_len(l) == 0 {
        (None, v)
    } else if lane::front_bytes(l, lane_cfg(v.cfg), now) > 0 && !open {
        (None, held_back(v))
    } else {
        let (p, v1) = served(v, i, now);
        (Some(p), v1)
    }
}

/// How many bytes a destination may send once it got its quantum: the length of
/// its next packet, or four quanta, are the most.
pub open spec fn credit(deficit: usize, quantum: usize, front: nat) -> nat {
    let sum = if deficit + quantum > usize::MAX {
        usize::MAX as nat
    } else {
        (deficit + quantum) as nat
    };
    let four = if quantum * 4 > usize::MAX {
        usize::MAX as nat
    } else {
        (quantum * 4) as nat
    };
    let cap = if four >= front {
        four
    } else {
        front
    };
    if sum > cap {
        cap
    } else {
        sum
    }
}

/// A destination's turn, where bytes are counted.
pub open spec fn counted_turn(v: PacerView, i: int, t: PeerTerms, now: u64) -> (
    Option<NextPacket>,
    PacerView,
) {
    let l = v.lanes[i].1;
    let front = lane::front_bytes(l, lane_cfg(v.cfg), now);
    let c = credit(l.deficit, t.quantum, front);
    let paid = PacerView {
        lanes: lanes_set(v.lanes, i, lane::LaneView { deficit: c as usize, ..l }),
        ..v
    };
    if lane::lane_len(l) == 0 {
        (
            None,
            PacerView {
                lanes: lanes_set(v.lanes, i, lane::LaneView { deficit: 0, ..l }),
                ..v
            },
        )
    } else if front == 0 || front > c {
        (None, paid)
    } else if !t.open {
        (None, held_back(paid))
    } else {
        let (p, v1) = served(
            PacerView {
                lanes: lanes_set(
                    v.lanes,
                    i,
                    lane::LaneView { deficit: (c - front) as usize, ..l },
                ),
                ..v
            },
            i,
            now,
        );
        (Some(p), v1)
    }
}

/// The round trip time changes what the destination gets at its turn.
pub open spec fn turn_is_scaled(v: PacerView, i: int, t: PeerTerms) -> bool {
    lane::lane_len(v.lanes[i].1) > 0 && t.scaled
}

/// Up to `k` turns without counting bytes, until a packet is found.
pub open spec fn plain_turns(v: PacerView, terms: Seq<PeerTerms>, now: u64, k: nat) -> (
    Option<NextPacket>,
    PacerView,
)
    decreases k,
{
    if k == 0 {
        (None, v)
    } else {
        let i = v.cursor as int % v.lanes.len() as int;
        let (p, v1) = plain_turn(
            PacerView { cursor: next_turn(v.cursor), ..v },
            i,
            terms[i].open,
            now,
        );
        if p is Some {
            (p, v1)
        } else {
            plain_turns(v1, terms, now, (k - 1) as nat)
        }
    }
}

/// The destinations from `i` on, in their order, until a packet is found.
pub open spec fn in_order(v: PacerView, terms: Seq<PeerTerms>, now: u64, i: int) -> (
    Option<NextPacket>,
    PacerView,
)
    decreases v.lanes.len() - i,
    via in_order_ends
{
    if i < 0 || i >= v.lanes.len() {
        (None, v)
    } else {
        let (p, v1) = plain_turn(v, i, terms[i].open, now);
        if p is Some {
            (p, v1)
        } else {
            in_order(v1, terms, now, i + 1)
        }
    }
}

#[via_fn]
proof fn in_order_ends(v: PacerView, terms: Seq<PeerTerms>, now: u64, i: int) {
}

/// Up to `k` turns with bytes counted, until a packet is found. `hits` turns
/// were scaled so far, which counts only where no packet is found.
pub open spec fn counted_turns(
    v: PacerView,
    hits: u64,
    terms: Seq<PeerTerms>,
    now: u64,
    k: nat,
) -> (Option<NextPacket>, PacerView)
    decreases k,
{
    if k == 0 {
        (
            None,
            PacerView {
                n: PacingCounters {
                    drr_rtt_scale_applied: counted(v.n.drr_rtt_scale_applied, hits as nat),
                    ..v.n
                },
                ..v
            },
        )
    } else {
        let i = v.cursor as int % v.lanes.len() as int;
        let h = if turn_is_scaled(v, i, terms[i]) {
            apd::bumped(hits)
        } else {
            hits
        };
        let (p, v1) = counted_turn(
            PacerView { cursor: next_turn(v.cursor), ..v },
            i,
            terms[i],
            now,
        );
        if p is Some {
            (p, v1)
        } else {
            counted_turns(v1, h, terms, now, (k - 1) as nat)
        }
    }
}

/// The first control packet goes out, if there is one.
pub open spec fn control_next(v: PacerView) -> (Option<NextPacket>, PacerView) {
    if v.control.len() == 0 {
        (None, v)
    } else {
        (
            Some(NextPacket::Control(v.control[0])),
            PacerView { control: v.control.skip(1), ..v },
        )
    }
}

/// After how many packets a control packet goes out: more often when many wait,
/// or when one has waited long.
pub open spec fn control_share(v: PacerView, now: u64) -> u8 {
    let pressed = v.control.len() * 2 >= cap_of(v.cfg.max_control_queue_packets);
    let aging = v.control.len() > 0 && engine_state::elapsed(now, v.control[0].enqueued_at)
        >= CONTROL_AGING_US;
    if pressed || aging {
        2
    } else {
        4
    }
}

/// A control packet's turn, between others.
pub open spec fn interleaved(v: PacerView, now: u64) -> (Option<NextPacket>, PacerView) {
    let count = if v.interleave == u8::MAX {
        0u8
    } else {
        (v.interleave + 1) as u8
    };
    let v1 = PacerView { interleave: count, ..v };
    if count % control_share(v, now) == 0 {
        control_next(v1)
    } else {
        (None, v1)
    }
}

/// The next packet, once no control packet had its turn.
pub open spec fn data_next(v: PacerView, terms: Seq<PeerTerms>, freeze: bool, now: u64) -> (
    Option<NextPacket>,
    PacerView,
) {
    let n = v.lanes.len();
    if freeze {
        plain_turns(v, terms, now, n)
    } else if !v.cfg.drr_enabled {
        in_order(v, terms, now, 0)
    } else if n == 0 || v.non_empty == 0 {
        (None, v)
    } else {
        counted_turns(v, 0, terms, now, 2 * n)
    }
}

/// The next packet: one to send again first, then a control packet if it is its
/// turn, then a packet for a destination, then a control packet after all.
pub open spec fn popped(v: PacerView, terms: Seq<PeerTerms>, freeze: bool, now: u64) -> (
    Option<NextPacket>,
    PacerView,
) {
    if v.rtx.len() > 0 {
        (Some(NextPacket::Control(v.rtx[0])), PacerView { rtx: v.rtx.skip(1), ..v })
    } else {
        let (p, v1) = interleaved(v, now);
        if p is Some {
            (p, v1)
        } else {
            let (q, v2) = data_next(v1, terms, freeze, now);
            if q is Some {
                (q, v2)
            } else {
                control_next(v2)
            }
        }
    }
}

/// The packet goes back to where it came from, to be the next one.
pub open spec fn requeued(v: PacerView, p: NextPacket) -> PacerView {
    match p {
        NextPacket::Control(q) => PacerView { control: seq![q] + v.control, ..v },
        NextPacket::Data { pkt, dest, enqueued_at } => {
            let s = with_lane(v.lanes, dest);
            let i = lane_ix(s, dest);
            let l = s[i].1;
            PacerView {
                lanes: lanes_set(
                    s,
                    i,
                    lane::prepended(l, QueuedData { pkt, enqueued_at }, lane_cfg(v.cfg)),
                ),
                non_empty: non_empty_after(v.non_empty, l),
                ..v
            }
        },
    }
}

/// A turn of shedding: a large packet that has waited too long is dropped.
pub open spec fn shed_turn(v: PacerView, now: u64) -> (bool, PacerView) {
    let i = v.cursor as int % v.lanes.len() as int;
    let l = v.lanes[i].1;
    let v1 = PacerView { cursor: next_turn(v.cursor), ..v };
    if l.bulk.len() > 0 && lane::head_age(l.bulk, now) > 1000 * v.cfg.shed.max_sojourn_ms {
        let rest = lane::LaneView { bulk: l.bulk.skip(1), ..l };
        (
            true,
            PacerView {
                lanes: lanes_set(v.lanes, i, rest),
                non_empty: if lane::lane_len(rest) == 0 {
                    (v.non_empty - 1) as nat
                } else {
                    v.non_empty
                },
                n: PacingCounters {
                    shed_sojourn: apd::bumped(v.n.shed_sojourn),
                    dropped_packets: apd::bumped(v.n.dropped_packets),
                    ..v.n
                },
                ..v1
            },
        )
    } else {
        (false, v1)
    }
}

/// Up to `k` turns of shedding, until `left` packets were dropped.
pub open spec fn shed_turns(v: PacerView, now: u64, left: nat, k: nat) -> PacerView
    decreases k,
{
    if k == 0 || left == 0 {
        v
    } else {
        let (dropped, v1) = shed_turn(v, now);
        shed_turns(
            v1,
            now,
            if dropped {
                (left - 1) as nat
            } else {
                left
            },
            (k - 1) as nat,
        )
    }
}

} // verus!
