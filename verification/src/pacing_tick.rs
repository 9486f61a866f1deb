//! A tick of the pacer: which packets go out, one after the other, and what
//! happens when one does not.
//!
//! A tick first sends packets from the bytes that are kept for packets to send
//! again, then from those kept for control packets, then its burst.

use crate::addr::Endpoint;
use crate::apd;
use crate::apd::{ApdInput, ApdPhase};
use crate::pacing;
use crate::pacing::{NextPacket, PacingEngine, PeerTerms, QueuedPacket};
use crate::pacing_engine;
use vstd::prelude::*;

verus! {

/// After how many errors in a row the socket counts as dead.
pub const SOCKET_DEAD_AFTER: u32 = 5;

/// What a tick is doing.
#[derive(Clone, Copy, Debug, PartialEq, Eq, Structural)]
pub enum TickStage {
    /// Sends again what was kept room for; so many bytes are left.
    Retransmit { left: usize },
    /// Sends control packets; so many bytes are left.
    Control { left: usize },
    /// Sends its burst; so many packets are left.
    Burst { left: u64 },
    Over,
}

/// A tick.
#[derive(Clone, Copy, Debug, PartialEq, Eq, Structural)]
pub struct TickRun {
    pub stage: TickStage,
    pub burst: u64,
    pub freeze_drr: bool,
    /// How many packets went out.
    pub sent: usize,
}

/// A packet on its way out.
pub enum Outgoing {
    /// From bytes that were kept.
    Reserved { q: QueuedPacket, retransmit: bool },
    Next(NextPacket),
}

/// What became of a packet on its way out.
#[derive(Clone, Copy, Debug, PartialEq, Eq, Structural)]
pub enum SendOutcome {
    Sent,
    WouldBlock,
    Failed,
}

/// How a tick ends before its burst is sent.
#[derive(Clone, Copy, Debug, PartialEq, Eq, Structural)]
pub enum TickEnd {
    Progress { sent: usize },
    SocketDead { last_failed_dest: Endpoint },
}

/// What is known of the queues at the start of a tick.
#[derive(Clone, Copy)]
pub struct TickFill {
    /// The queues are fuller than the high mark.
    pub above_high: bool,
    /// The queues are less full than the low mark.
    pub below_low: bool,
    /// The queues are fuller than at the tick before.
    pub rising: bool,
    /// The burst that fits the queues as they are.
    pub ramp_target: u64,
    /// Congestion control lets some destination send.
    pub cc_sendable: bool,
    /// The queues are full enough to shed packets.
    pub full_enough: bool,
}

/// A time in milliseconds, to the nearest one.
pub open spec fn nearest_ms(us: u64) -> u64 {
    if us % 1000 >= 500 {
        (us / 1000 + 1) as u64
    } else {
        us / 1000
    }
}

/// What the drain is told.
pub open spec fn drain_input(v: pacing::PacerView, f: TickFill, now: u64) -> ApdInput {
    ApdInput {
        base_burst: v.cfg.base_max_burst,
        above_high: f.above_high,
        below_low: f.below_low,
        rising: f.rising,
        ramp_target: f.ramp_target,
        hol_sojourn: pacing_engine::longest_wait(v, now, v.lanes.len()) as u64,
        cc_sendable: f.cc_sendable,
        now,
    }
}

/// The drain decides on the tick, where it is switched on: the pacer after that,
/// and the decision.
pub open spec fn decided(v: pacing::PacerView, f: TickFill, now: u64) -> (
    pacing::PacerView,
    apd::ApdDecision,
) {
    if v.apd.cfg.enabled {
        let i = drain_input(v, f, now);
        let (st, d) = apd::stepped(
            apd::ApdState { last_max_sojourn_ms: nearest_ms(i.hol_sojourn), ..v.apd },
            i,
        );
        (pacing::PacerView { apd: st, ..v }, d)
    } else {
        (v, apd::ApdDecision { effective_burst: v.cfg.base_max_burst, freeze_drr: false })
    }
}

/// A packet of `len` bytes can go out from the bytes that were kept: the first one
/// whatever its length.
pub open spec fn may_send(len: nat, left: usize, kept: usize) -> bool {
    left > 0 && (left == kept || len <= left)
}

/// How many bytes are left after a packet of `len` bytes.
pub open spec fn left_after(left: usize, len: nat) -> usize {
    if len >= left {
        0
    } else {
        (left - len) as usize
    }
}

/// The first packet of the queue can go out from the bytes that were kept.
pub open spec fn head_may_send(q: Seq<QueuedPacket>, left: usize, kept: usize) -> bool {
    q.len() > 0 && q[0].pkt@.len() > 0 && may_send(q[0].pkt@.len(), left, kept)
}

/// The tick sends its burst.
pub open spec fn burst_next(
    v: pacing::PacerView,
    run: TickRun,
    left: u64,
    go: bool,
    terms: Seq<PeerTerms>,
    now: u64,
) -> (Option<Outgoing>, pacing::PacerView, TickRun) {
    if left == 0 || !go {
        (None, v, TickRun { stage: TickStage::Over, ..run })
    } else {
        let (p, v1) = pacing::popped(v, terms, run.freeze_drr, now);
        match p {
            Some(x) => (
                Some(Outgoing::Next(x)),
                v1,
                TickRun { stage: TickStage::Burst { left: (left - 1) as u64 }, ..run },
            ),
            None => (None, v1, TickRun { stage: TickStage::Over, ..run }),
        }
    }
}

/// The tick sends control packets.
pub open spec fn control_stage(
    v: pacing::PacerView,
    run: TickRun,
    left: usize,
    go: bool,
    terms: Seq<PeerTerms>,
    now: u64,
) -> (Option<Outgoing>, pacing::PacerView, TickRun) {
    let kept = v.cfg.min_control_reserved_bytes_per_tick;
    if go && head_may_send(v.control, left, kept) {
        (
            Some(Outgoing::Reserved { q: v.control[0], retransmit: false }),
            pacing::PacerView { control: v.control.skip(1), ..v },
            TickRun { stage: TickStage::Control { left }, ..run },
        )
    } else {
        burst_next(v, run, run.burst, go, terms, now)
    }
}

/// The next packet of a tick. `go` tells that there is time left, and room in
/// the budget.
pub open spec fn tick_next(
    v: pacing::PacerView,
    run: TickRun,
    go: bool,
    terms: Seq<PeerTerms>,
    now: u64,
) -> (Option<Outgoing>, pacing::PacerView, TickRun) {
    match run.stage {
        TickStage::Retransmit { left } => {
            let kept = v.cfg.min_retransmit_reserved_bytes_per_tick;
            if go && head_may_send(v.rtx, left, kept) {
                (
                    Some(Outgoing::Reserved { q: v.rtx[0], retransmit: true }),
                    pacing::PacerView { rtx: v.rtx.skip(1), ..v },
                    run,
                )
            } else {
                control_stage(
                    v,
                    run,
                    v.cfg.min_control_reserved_bytes_per_tick,
                    go,
                    terms,
                    now,
                )
            }
        },
        TickStage::Control { left } => control_stage(v, run, left, go, terms, now),
        TickStage::Burst { left } => burst_next(v, run, left, go, terms, now),
        TickStage::Over => (None, v, run),
    }
}

/// The packet goes back to where it came from.
pub open spec fn put_back(v: pacing::PacerView, out: Outgoing) -> pacing::PacerView {
    match out {
        Outgoing::Reserved { q, retransmit } => if retransmit {
            pacing::PacerView { rtx: seq![q] + v.rtx, ..v }
        } else {
            pacing::PacerView { control: seq![q] + v.control, ..v }
        },
        Outgoing::Next(p) => pacing::requeued(v, p),
    }
}

/// Where a packet goes.
pub open spec fn dest_of(out: Outgoing) -> Endpoint {
    match out {
        Outgoing::Reserved { q, .. } => q.dest,
        Outgoing::Next(NextPacket::Control(q)) => q.dest,
        Outgoing::Next(NextPacket::Data { dest, .. }) => dest,
    }
}

/// The tick after a packet went out.
pub open spec fn run_after_sent(run: TickRun, out: Outgoing) -> TickRun {
    let counted = TickRun {
        sent: if run.sent == usize::MAX {
            run.sent
        } else {
            (run.sent + 1) as usize
        },
        ..run
    };
    match (out, run.stage) {
        (Outgoing::Reserved { q, .. }, TickStage::Retransmit { left }) => TickRun {
            stage: TickStage::Retransmit { left: left_after(left, q.pkt@.len()) },
            ..counted
        },
        (Outgoing::Reserved { q, .. }, TickStage::Control { left }) => TickRun {
            stage: TickStage::Control { left: left_after(left, q.pkt@.len()) },
            ..counted
        },
        _ => counted,
    }
}

/// The pacer after a packet went out.
pub open spec fn after_sent(v: pacing::PacerView, out: Outgoing) -> pacing::PacerView {
    let v1 = pacing::PacerView { errors: 0, ..v };
    match out {
        Outgoing::Reserved { retransmit, .. } => pacing::PacerView {
            n: pacing::PacingCounters {
                reserved_rtx_sends: if retransmit {
                    apd::bumped(v.n.reserved_rtx_sends)
                } else {
                    v.n.reserved_rtx_sends
                },
                reserved_ctrl_sends: if retransmit {
                    v.n.reserved_ctrl_sends
                } else {
                    apd::bumped(v.n.reserved_ctrl_sends)
                },
                ..v.n
            },
            ..v1
        },
        Outgoing::Next(_) => if v.apd.cfg.enabled && v.apd.phase == ApdPhase::Drain {
            pacing::PacerView {
                apd: apd::ApdState {
                    packets_drained: apd::bumped(v.apd.packets_drained),
                    ..v.apd
                },
                ..v1
            }
        } else {
            v1
        },
    }
}

/// What becomes of the pacer, the tick and its end after a packet was tried.
pub open spec fn outcome_done(
    v: pacing::PacerView,
    run: TickRun,
    out: Outgoing,
    outcome: SendOutcome,
) -> (Option<TickEnd>, pacing::PacerView, TickRun) {
    match outcome {
        SendOutcome::Sent => (None, after_sent(v, out), run_after_sent(run, out)),
        SendOutcome::WouldBlock => (
            Some(TickEnd::Progress { sent: run.sent }),
            put_back(v, out),
            TickRun { stage: TickStage::Over, ..run },
        ),
        SendOutcome::Failed => {
            let errors = if v.errors == u32::MAX {
                u32::MAX
            } else {
                (v.errors + 1) as u32
            };
            (
                Some(
                    if errors >= SOCKET_DEAD_AFTER {
                        TickEnd::SocketDead { last_failed_dest: dest_of(out) }
                    } else {
                        TickEnd::Progress { sent: run.sent }
                    },
                ),
                put_back(pacing::PacerView { errors, ..v }, out),
                TickRun { stage: TickStage::Over, ..run },
            )
        },
    }
}

impl Outgoing {
    /// Where the packet goes, and how many bytes it has.
    pub fn target(&self) -> (out: (Endpoint, usize))
        ensures
            out.0 == dest_of(*self),
            out.1 == bytes_of(*self).len(),
    {
        match self {
            Outgoing::Reserved { q, .. } => (q.dest, q.pkt.len()),
            Outgoing::Next(NextPacket::Control(q)) => (q.dest, q.pkt.len()),
            Outgoing::Next(NextPacket::Data { dest, pkt, .. }) => (*dest, pkt.len()),
        }
    }

    /// The bytes of the packet.
    pub fn bytes(&self) -> (out: &Vec<u8>)
        ensures
            out@ == bytes_of(*self),
    {
        match self {
            Outgoing::Reserved { q, .. } => &q.pkt,
            Outgoing::Next(NextPacket::Control(q)) => &q.pkt,
            Outgoing::Next(NextPacket::Data { pkt, .. }) => pkt,
        }
    }

    /// Whether the packet counts for congestion control.
    pub fn is_data(&self) -> (b: bool)
        ensures
            b == (self matches Outgoing::Next(NextPacket::Data { .. })),
    {
        match self {
            Outgoing::Next(NextPacket::Data { .. }) => true,
            _ => false,
        }
    }
}

/// The bytes of a packet.
pub open spec fn bytes_of(out: Outgoing) -> Seq<u8> {
    match out {
        Outgoing::Reserved { q, .. } => q.pkt@,
        Outgoing::Next(NextPacket::Control(q)) => q.pkt@,
        Outgoing::Next(NextPacket::Data { pkt, .. }) => pkt@,
    }
}

pub fn reserved_may_send(pkt_len: usize, remaining: usize, phase_initial: usize) -> (b: bool)
    ensures
        b == may_send(pkt_len as nat, remaining, phase_initial),
{
    remaining > 0 && (remaining == phase_initial || pkt_len <= remaining)
}

pub fn reserved_consume(remaining: usize, pkt_len: usize) -> (out: usize)
    ensures
        out == left_after(remaining, pkt_len as nat),
{
    remaining.saturating_sub(pkt_len)
}

impl PacingEngine {
    /// A tick begins.
    pub fn begin_tick(&self, effective_burst: u64, freeze_drr: bool) -> (run: TickRun)
        ensures
            run == (TickRun {
                stage: TickStage::Retransmit {
                    left: self@.cfg.min_retransmit_reserved_bytes_per_tick,
                },
                burst: effective_burst,
                freeze_drr,
                sent: 0,
            }),
    {
        TickRun {
            stage: TickStage::Retransmit {
                left: self.config.min_retransmit_reserved_bytes_per_tick,
            },
            burst: effective_burst,
            freeze_drr,
            sent: 0,
        }
    }

    /// A tick begins: the drain decides how many packets it sends, and packets that
    /// have waited too long are shed.
    pub fn open_tick<F: Fn() -> bool>(&mut self, f: TickFill, now: u64, past_deadline: F) -> (run:
        TickRun)
        requires
            old(self).wf(),
            call_requires(past_deadline, ()),
            old(self)@.apd.cfg.enabled ==> {
                &&& old(self)@.apd.cfg.ramp_max_burst >= 1 || old(self)@.cfg.base_max_burst >= 1
                &&& now + 1000 * old(self)@.apd.cfg.cooldown_ms <= u64::MAX
            },
        ensures
            final(self).wf(),
            ({
                let (v, d) = decided(old(self)@, f, now);
                let most = v.cfg.shed.max_per_tick as nat;
                &&& run == (TickRun {
                    stage: TickStage::Retransmit {
                        left: v.cfg.min_retransmit_reserved_bytes_per_tick,
                    },
                    burst: d.effective_burst,
                    freeze_drr: d.freeze_drr,
                    sent: 0,
                })
                &&& !pacing_engine::shed_due(v, f.full_enough) ==> final(self)@ == v
                &&& pacing_engine::shed_due(v, f.full_enough) ==> exists|k: nat|
                    k <= v.lanes.len() && final(self)@ == #[trigger] pacing::shed_turns(
                        v,
                        now,
                        most,
                        k,
                    )
                &&& pacing_engine::shed_due(v, f.full_enough) && (forall|b: bool|
                    call_ensures(past_deadline, (), b) ==> !b) ==> final(self)@
                    == pacing::shed_turns(v, now, most, v.lanes.len())
            }),
    {
        let mut burst: u64 = self.config.base_max_burst;
        let mut freeze_drr: bool = false;
        if self.apd.cfg.enabled {
            let wait: u64 = self.max_hol_sojourn(now);
            self.apd.last_max_sojourn_ms = if wait % 1000 >= 500 {
                wait / 1000 + 1
            } else {
                wait / 1000
            };
            let d = self.apd.apd_step(
                &ApdInput {
                    base_burst: self.config.base_max_burst,
                    above_high: f.above_high,
                    below_low: f.below_low,
                    rising: f.rising,
                    ramp_target: f.ramp_target,
                    hol_sojourn: wait,
                    cc_sendable: f.cc_sendable,
                    now,
                },
            );
            burst = d.effective_burst;
            freeze_drr = d.freeze_drr;
        }
        assert(self@ == decided(old(self)@, f, now).0);
        let run = self.begin_tick(burst, freeze_drr);
        self.shed_stale_bulk_rr(f.full_enough, now, past_deadline);
        run
    }

    fn next_of_burst(
        &mut self,
        run: &mut TickRun,
        left: u64,
        go: bool,
        terms: &Vec<PeerTerms>,
        now: u64,
    ) -> (out: Option<Outgoing>)
        requires
            old(self).wf(),
            terms@.len() == old(self)@.lanes.len(),
        ensures
            final(self).wf(),
            (out, final(self)@, *final(run)) == burst_next(
                old(self)@,
                *old(run),
                left,
                go,
                terms@,
                now,
            ),
    {
        if left == 0 || !go {
            run.stage = TickStage::Over;
            return None;
        }
        match self.pop_next_apd(terms, run.freeze_drr, now) {
            Some(p) => {
                run.stage = TickStage::Burst { left: left - 1 };
                Some(Outgoing::Next(p))
            },
            None => {
                run.stage = TickStage::Over;
                None
            },
        }
    }

    fn next_of_control(
        &mut self,
        run: &mut TickRun,
        left: usize,
        go: bool,
        terms: &Vec<PeerTerms>,
        now: u64,
    ) -> (out: Option<Outgoing>)
        requires
            old(self).wf(),
            terms@.len() == old(self)@.lanes.len(),
        ensures
            final(self).wf(),
            (out, final(self)@, *final(run)) == control_stage(
                old(self)@,
                *old(run),
                left,
                go,
                terms@,
                now,
            ),
    {
        let kept: usize = self.config.min_control_reserved_bytes_per_tick;
        if go && self.control_q.len() > 0 && self.control_q[0].pkt.len() > 0 && reserved_may_send(
            self.control_q[0].pkt.len(),
            left,
            kept,
        ) {
            let ghost c0 = self.control_q@;
            if let Some(q) = self.control_q.pop_front() {
                proof {
                    assert(self.control_q@ =~= c0.skip(1));
                }
                run.stage = TickStage::Control { left };
                return Some(Outgoing::Reserved { q, retransmit: false });
            }
        }
        let burst: u64 = run.burst;
        self.next_of_burst(run, burst, go, terms, now)
    }

    /// The next packet of a tick, if there is one. `go` tells that there is time
    /// left, and room in the budget.
    pub fn tick_next(
        &mut self,
        run: &mut TickRun,
        go: bool,
        terms: &Vec<PeerTerms>,
        now: u64,
    ) -> (out: Option<Outgoing>)
        requires
            old(self).wf(),
            terms@.len() == old(self)@.lanes.len(),
        ensures
            final(self).wf(),
            (out, final(self)@, *final(run)) == tick_next(old(self)@, *old(run), go, terms@, now),
    {
        match run.stage {
            TickStage::Retransmit { left } => {
                let kept: usize = self.config.min_retransmit_reserved_bytes_per_tick;
                if go && self.retransmit_q.len() > 0 && self.retransmit_q[0].pkt.len() > 0
                    && reserved_may_send(self.retransmit_q[0].pkt.len(), left, kept) {
                    let ghost r0 = self.retransmit_q@;
                    if let Some(q) = self.retransmit_q.pop_front() {
                        proof {
                            assert(self.retransmit_q@ =~= r0.skip(1));
                        }
                        return Some(Outgoing::Reserved { q, retransmit: true });
                    }
                }
                let first: usize = self.config.min_control_reserved_bytes_per_tick;
                self.next_of_control(run, first, go, terms, now)
            },
            TickStage::Control { left } => self.next_of_control(run, left, go, terms, now),
            TickStage::Burst { left } => self.next_of_burst(run, left, go, terms, now),
            TickStage::Over => None,
        }
    }

    fn put_back(&mut self, out: Outgoing)
        requires
            old(self).wf(),
        ensures
            final(self).wf(),
            final(self)@ == put_back(old(self)@, out),
    {
        match out {
            Outgoing::Reserved { q, retransmit } => {
                let ghost r0 = self.retransmit_q@;
                let ghost c0 = self.control_q@;
                if retransmit {
                    self.retransmit_q.push_front(q);
                    proof {
                        assert(self.retransmit_q@ =~= seq![q] + r0);
                    }
                } else {
                    self.control_q.push_front(q);
                    proof {
                        assert(self.control_q@ =~= seq![q] + c0);
                    }
                }
            },
            Outgoing::Next(p) => {
                self.requeue(p);
            },
        }
    }

    /// Tells the pacer what became of the packet; tells whether the tick ends.
    pub fn tick_outcome(&mut self, run: &mut TickRun, out: Outgoing, outcome: SendOutcome) -> (end:
        Option<TickEnd>)
        requires
            old(self).wf(),
        ensures
            final(self).wf(),
            (end, final(self)@, *final(run)) == outcome_done(
                old(self)@,
                *old(run),
                out,
                outcome,
            ),
    {
        let (dest, len): (Endpoint, usize) = out.target();
        match outcome {
            SendOutcome::Sent => {
                self.consecutive_errors = 0;
                run.sent = run.sent.saturating_add(1);
                match out {
                    Outgoing::Reserved { q, retransmit } => {
                        if retransmit {
                            self.counters.reserved_rtx_sends =
                            self.counters.reserved_rtx_sends.saturating_add(1);
                        } else {
                            self.counters.reserved_ctrl_sends =
                            self.counters.reserved_ctrl_sends.saturating_add(1);
                        }
                        match run.stage {
                            TickStage::Retransmit { left } => {
                                run.stage = TickStage::Retransmit {
                                    left: reserved_consume(left, len),
                                };
                            },
                            TickStage::Control { left } => {
                                run.stage = TickStage::Control {
                                    left: reserved_consume(left, len),
                                };
                            },
                            _ => {},
                        }
                    },
                    Outgoing::Next(_) => {
                        if self.apd.cfg.enabled && self.apd.phase == ApdPhase::Drain {
                            self.apd.packets_drained = self.apd.packets_drained.saturating_add(1);
                        }
                    },
                }
                None
            },
            SendOutcome::WouldBlock => {
                self.put_back(out);
                run.stage = TickStage::Over;
                Some(TickEnd::Progress { sent: run.sent })
            },
            SendOutcome::Failed => {
                self.consecutive_errors = self.consecutive_errors.saturating_add(1);
                let dead: bool = self.consecutive_errors >= SOCKET_DEAD_AFTER;
                self.put_back(out);
                run.stage = TickStage::Over;
                if dead {
                    Some(TickEnd::SocketDead { last_failed_dest: dest })
                } else {
                    Some(TickEnd::Progress { sent: run.sent })
                }
            },
        }
    }
}

} // verus!
