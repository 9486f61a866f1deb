//! What holds of the pacer's ticks: how many packets one sends, and in which order.

use crate::apd;
use crate::apd::{ApdConfig, ApdInput, ApdPhase, ApdState, ShedConfig};
use crate::background_cc;
use crate::background_cc::{CcUpdateCounters, DelayVerdict};
use crate::config::NetworkConfig;
use crate::engine_state;
use crate::lane;
use crate::lane::{LaneConfig, LaneView, PeerPopKind};
use crate::pace_clock;
use crate::pace_clock::{ClockInput, ClockState, ClockWait};
use crate::pacing;
use crate::pacing::{NextPacket, PacerView, PacingConfig, PeerTerms};
use crate::pacing_engine;
use crate::pacing_tick;
use crate::pacing_tick::{Outgoing, SendOutcome, TickEnd, TickFill, TickRun, TickStage};
use crate::queue_laws;
use vstd::prelude::*;

verus! {

/// The place of a stage in a tick.
pub open spec fn stage_place(s: TickStage) -> int {
    match s {
        TickStage::Retransmit { .. } => 0,
        TickStage::Control { .. } => 1,
        TickStage::Burst { .. } => 2,
        TickStage::Over => 3,
    }
}

/// A tick goes through its stages in their order and never back: what is to be sent again,
/// control packets, the burst. Where it gives no packet it is over, and once it is over it
/// gives none and touches nothing.
pub proof fn ticks_go_forward(
    v: PacerView,
    run: TickRun,
    go: bool,
    terms: Seq<PeerTerms>,
    now: u64,
)
    ensures
        ({
            let (p, w, run1) = pacing_tick::tick_next(v, run, go, terms, now);
            &&& stage_place(run.stage) <= stage_place(run1.stage)
            &&& p is None ==> run1.stage is Over
            &&& run.stage is Over ==> p is None && w == v && run1 == run
            &&& !go ==> p is None && w == v
            &&& run1.sent == run.sent && run1.freeze_drr == run.freeze_drr && run1.burst == run.burst
        }),
{
}

/// What comes from the bytes that are kept is the first of its queue, and only it leaves:
/// one to send again in the first stage, a control packet in the second. There it goes out
/// only if it fits into what is left, or nothing was taken yet.
pub proof fn kept_bytes_are_kept(
    v: PacerView,
    run: TickRun,
    go: bool,
    terms: Seq<PeerTerms>,
    now: u64,
)
    ensures
        ({
            let (p, w, run1) = pacing_tick::tick_next(v, run, go, terms, now);
            match p {
                Some(Outgoing::Reserved { q, retransmit: true }) => {
                    &&& v.rtx =~= seq![q] + w.rtx
                    &&& w.control == v.control && w.lanes == v.lanes
                    &&& run.stage matches TickStage::Retransmit { left } && left > 0 && (
                    q.pkt@.len() <= left || left == v.cfg.min_retransmit_reserved_bytes_per_tick)
                },
                Some(Outgoing::Reserved { q, retransmit: false }) => {
                    &&& v.control =~= seq![q] + w.control
                    &&& w.rtx == v.rtx && w.lanes == v.lanes
                    &&& run1.stage matches TickStage::Control { left } && left > 0 && (q.pkt@.len()
                        <= left || left == v.cfg.min_control_reserved_bytes_per_tick)
                },
                _ => true,
            }
        }),
{
    if v.rtx.len() > 0 {
        assert(v.rtx =~= seq![v.rtx[0]] + v.rtx.skip(1));
    }
    if v.control.len() > 0 {
        assert(v.control =~= seq![v.control[0]] + v.control.skip(1));
    }
}

/// A packet that is waiting to be sent again goes out from the bytes that are kept for it,
/// as long as there are any; so does a control packet.
pub proof fn kept_bytes_are_used(
    v: PacerView,
    run: TickRun,
    left: usize,
    terms: Seq<PeerTerms>,
    now: u64,
)
    ensures
        run.stage == (TickStage::Retransmit { left }) && v.rtx.len() > 0 && 0
            < v.rtx[0].pkt@.len() <= left ==> pacing_tick::tick_next(v, run, true, terms, now).0
            == Some(Outgoing::Reserved { q: v.rtx[0], retransmit: true }),
        run.stage == (TickStage::Control { left }) && v.control.len() > 0 && 0
            < v.control[0].pkt@.len() <= left ==> pacing_tick::tick_next(
            v,
            run,
            true,
            terms,
            now,
        ).0 == Some(Outgoing::Reserved { q: v.control[0], retransmit: false }),
{
}

/// In its burst a tick sends one packet less with each that it sends, until none is left.
pub proof fn bursts_end(v: PacerView, run: TickRun, left: u64, terms: Seq<PeerTerms>, now: u64)
    requires
        run.stage == (TickStage::Burst { left }),
    ensures
        ({
            let (p, w, run1) = pacing_tick::tick_next(v, run, true, terms, now);
            &&& left == 0 ==> p is None && w == v
            &&& p is Some ==> run1.stage == (TickStage::Burst { left: (left - 1) as u64 })
            &&& left > 0 ==> (p matches Some(out) ==> Some(out) == match pacing::popped(
                v,
                terms,
                run.freeze_drr,
                now,
            ).0 {
                Some(x) => Some(Outgoing::Next(x)),
                None => None,
            })
            &&& left > 0 && v.rtx.len() + v.control.len() > 0 ==> p is Some
        }),
{
    queue_laws::first_of_a_queue_goes_out(v, terms, run.freeze_drr, now);
}

/// The bytes of a packet that went out from those that are kept are gone from them; the
/// packet is counted, and no error counts any more.
pub proof fn sent_packets_count(v: PacerView, run: TickRun, out: Outgoing)
    requires
        run.sent < usize::MAX,
    ensures
        ({
            let (end, w, run1) = pacing_tick::outcome_done(v, run, out, SendOutcome::Sent);
            &&& end is None
            &&& run1.sent == run.sent + 1
            &&& w.errors == 0
            &&& w.control == v.control && w.rtx == v.rtx && w.lanes == v.lanes
            &&& run.stage matches TickStage::Retransmit { left } ==> (
            out matches Outgoing::Reserved { q, .. } ==> (
            run1.stage matches TickStage::Retransmit { left: l } && l == if q.pkt@.len() <= left {
                left - q.pkt@.len()
            } else {
                0
            }))
            &&& run.stage matches TickStage::Control { left } ==> (
            out matches Outgoing::Reserved { q, .. } ==> (
            run1.stage matches TickStage::Control { left: l } && l == if q.pkt@.len() <= left {
                left - q.pkt@.len()
            } else {
                0
            }))
            &&& run.stage matches TickStage::Burst { .. } ==> run1.stage == run.stage
        }),
{
}

/// A packet that the socket did not take goes back to the front of the queue that it came
/// from, and the tick is over. An error counts, and the fifth in a row tells that the socket
/// is dead, and for which destination.
pub proof fn unsent_packets_go_back(v: PacerView, run: TickRun, out: Outgoing, failed: bool)
    requires
        v.errors < u32::MAX,
    ensures
        ({
            let o = if failed {
                SendOutcome::Failed
            } else {
                SendOutcome::WouldBlock
            };
            let (end, w, run1) = pacing_tick::outcome_done(v, run, out, o);
            &&& run1.stage is Over && run1.sent == run.sent
            &&& w.errors == if failed {
                v.errors + 1
            } else {
                v.errors as int
            }
            &&& end matches Some(TickEnd::SocketDead { last_failed_dest }) ==> failed && v.errors + 1
                >= 5 && last_failed_dest == match out {
                Outgoing::Reserved { q, .. } => q.dest,
                Outgoing::Next(NextPacket::Control(q)) => q.dest,
                Outgoing::Next(NextPacket::Data { dest, .. }) => dest,
            }
            &&& failed && v.errors + 1 >= 5 ==> end is Some && end->0 is SocketDead
            &&& !failed || v.errors + 1 < 5 ==> end == Some(TickEnd::Progress { sent: run.sent })
            &&& match out {
                Outgoing::Reserved { q, retransmit: true } => w.rtx =~= seq![q] + v.rtx && w.control
                    == v.control && w.lanes == v.lanes,
                Outgoing::Reserved { q, retransmit: false } => w.control =~= seq![q] + v.control
                    && w.rtx == v.rtx && w.lanes == v.lanes,
                Outgoing::Next(NextPacket::Control(q)) => w.control =~= seq![q] + v.control && w.rtx
                    == v.rtx && w.lanes == v.lanes,
                Outgoing::Next(NextPacket::Data { .. }) => w.control == v.control && w.rtx
                    == v.rtx,
            }
        }),
{
}

/// The burst follows rising queues at once, and falls by one packet a tick. It is never
/// below the base burst.
pub proof fn bursts_rise_at_once_and_fall_slowly(st: ApdState, i: ApdInput)
    requires
        st.phase != ApdPhase::Drain,
        apd::stepped(st, i).0.phase != ApdPhase::Drain,
        st.ramp_burst >= 1,
    ensures
        ({
            let (st1, d) = apd::stepped(st, i);
            let held = st.cfg.require_cc_headroom && !i.cc_sendable;
            &&& d.effective_burst >= i.base_burst
            &&& d.effective_burst >= st1.ramp_burst
            &&& d.effective_burst == st1.ramp_burst || d.effective_burst == i.base_burst
            &&& !d.freeze_drr
            &&& !held && i.rising ==> st1.ramp_burst == i.ramp_target
            &&& !held && !i.rising ==> st1.ramp_burst >= i.ramp_target && (st1.ramp_burst
                == st.ramp_burst - 1 || st1.ramp_burst == i.ramp_target)
            &&& held ==> (st1.ramp_burst == st.ramp_burst - 1 || st1.ramp_burst == i.base_burst)
                && st1.ramp_burst >= i.base_burst
        }),
{
}

/// A drain begins once the queues were too full, or packets waited too long, for as many
/// ticks as it takes; a tick without either takes one of them back. A drain ends when the
/// queues are empty enough and nobody waits long, when it has taken its time, or when nobody
/// can send; then the pause begins.
pub proof fn drains_begin_and_end(st: ApdState, i: ApdInput)
    requires
        st.confirm_counter < u32::MAX,
    ensures
        ({
            let (st1, d) = apd::stepped(st, i);
            let held = st.cfg.require_cc_headroom && !i.cc_sendable;
            let waited = st.cfg.sojourn_enabled && i.hol_sojourn > 1000 * st.cfg.max_sojourn_ms;
            &&& st.phase is Alert && waited && !held && st.confirm_counter + 1
                >= st.cfg.confirm_ticks ==> st1.phase is Drain && st1.drain_entered_at == Some(i.now)
            &&& st.phase is Alert && waited && !held && st.confirm_counter + 1
                < st.cfg.confirm_ticks ==> st1.phase is Alert && st1.confirm_counter
                == st.confirm_counter + 1
            &&& st.phase is Alert && !waited && !i.above_high && st.confirm_counter > 0
                && st.cfg.confirm_ticks > 0 ==> st1.phase is Alert && st1.confirm_counter
                == st.confirm_counter - 1
            &&& st.phase is Drain && held ==> st1.phase is Cooldown
            &&& st.phase is Drain && i.below_low && (!st.cfg.sojourn_enabled || i.hol_sojourn < 1000
                * st.cfg.target_sojourn_ms) ==> st1.phase is Cooldown
            &&& st.phase is Drain && st1.phase is Cooldown ==> st1.drain_entered_at is None
                && st1.confirm_counter == 0 && (i.now + 1000 * st.cfg.cooldown_ms <= u64::MAX
                ==> st1.cooldown_until == Some((i.now + 1000 * st.cfg.cooldown_ms) as u64))
            &&& st.phase is Drain && !held && !i.below_low && st.cfg.spinloop_budget_ms == 0
                ==> st1.phase is Drain
            &&& st.phase is Cooldown && (st.cooldown_until is None || i.now
                >= st.cooldown_until->0) ==> st1.phase is Alert && st1.confirm_counter == 0
            &&& st1.phase is Drain ==> d.freeze_drr == st.cfg.drain_freeze_drr && st1.last_tick_us
                == st.cfg.drain_tick_us
            &&& st1.phase !is Drain ==> st1.last_tick_us == 0
        }),
{
}

/// The number lies between the ends, and is itself where it did before.
pub open spec fn brought_into(before: int, lo: int, hi: int, after: int) -> bool {
    &&& lo <= after <= hi
    &&& lo <= before <= hi ==> after == before
    &&& before < lo ==> after == lo
    &&& before > hi ==> after == hi
}

/// A user's settings of the drain are brought into their ranges, each by itself.
pub proof fn drain_settings_in_range(c: ApdConfig, tick_us: u64, burst: u64)
    requires
        burst <= 200,
    ensures
        ({
            let u = apd::user_ranges(c, tick_us, burst);
            let least = if burst >= 1 {
                burst as int
            } else {
                1
            };
            &&& brought_into(c.ramp_max_burst as int, least, 200, u.ramp_max_burst as int)
            &&& brought_into(c.drain_max_burst as int, 1, u.ramp_max_burst as int, u.drain_max_burst as int)
            &&& brought_into(c.spinloop_budget_ms as int, 0, 100, u.spinloop_budget_ms as int)
            &&& brought_into(
                c.drain_tick_us as int,
                0,
                if tick_us >= 1 {
                    tick_us as int
                } else {
                    1
                },
                u.drain_tick_us as int,
            )
            &&& brought_into(c.confirm_ticks as int, 0, 10, u.confirm_ticks as int)
            &&& brought_into(c.cooldown_ms as int, 0, 500, u.cooldown_ms as int)
            &&& u.enabled == c.enabled && u.drain_freeze_drr == c.drain_freeze_drr
                && u.sojourn_enabled == c.sojourn_enabled && u.require_cc_headroom
                == c.require_cc_headroom
            &&& u.target_sojourn_ms <= u.max_sojourn_ms
        }),
{
}

/// No packet is shed before the drain had its chance: where both are on, a packet that is
/// shed has waited at least as long as the drain lets one wait.
pub proof fn shedding_comes_after_draining(c: ShedConfig, a: ApdConfig)
    ensures
        ({
            let s = apd::shed_sane(c, a);
            &&& c.enabled && a.enabled && a.sojourn_enabled ==> s.max_sojourn_ms
                >= a.max_sojourn_ms
            &&& s.enabled == c.enabled
            &&& s.max_per_tick >= 1
        }),
{
}

/// A tick is at least as long as the shortest and at most as long as the longest; a clock
/// that spins all the time keeps to what the drain asks for.
pub proof fn tick_lengths(st: ClockState, i: ClockInput)
    ensures
        ({
            let t = pace_clock::tick_length(st, i);
            &&& t >= 1
            &&& i.apd_pure_spin && i.apd_tick_us > 0 ==> t == i.apd_tick_us
            &&& !i.apd_pure_spin && !i.apply.fab_enabled && i.tick_us
                >= pace_clock::MIN_PACE_TICK_US ==> t == i.tick_us
            &&& !i.apd_pure_spin && st.overshoot_streak == 0 && i.tick_us
                >= pace_clock::MIN_PACE_TICK_US ==> t == i.tick_us
        }),
{
}

/// All of the time until a tick is slept or spun, none of it twice: one sleeps until the
/// window begins and spins from there on, and neither begins before now nor ends but at the
/// tick.
pub proof fn waits_are_split_at_the_window(deadline: u64, window: u64, now: u64)
    ensures
        match pace_clock::wait_for(deadline, window, now) {
            ClockWait::Due => now >= deadline,
            ClockWait::Sleep { until } => now < deadline && window == 0 && until == deadline,
            ClockWait::Spin { until } => now < deadline && until == deadline && deadline - now
                <= window && window > 0,
            ClockWait::SleepThenSpin { sleep_until, until } => now < sleep_until < until && until
                == deadline && until - sleep_until == window,
        },
{
}

/// A late tick counts up and one in time counts down, by one.
pub proof fn late_ticks_count(streak: u32)
    ensures
        streak < u32::MAX ==> pace_clock::streak_after(streak, true) == streak + 1,
        streak > 0 ==> pace_clock::streak_after(streak, false) == streak - 1,
        pace_clock::streak_after(0, false) == 0,
{
}

/// A low delay counts as a rise and a high one as a fall of the rate; a loss counts by
/// itself, and what was not measured not at all.
pub proof fn samples_are_counted(c: CcUpdateCounters, loss: bool, delay: DelayVerdict)
    requires
        c.increase_events < u64::MAX,
        c.decrease_events < u64::MAX,
        c.loss_decrease_events < u64::MAX,
    ensures
        ({
            let d = background_cc::counted(c, loss, delay);
            &&& d.increase_events == c.increase_events + if delay is Low {
                1int
            } else {
                0int
            }
            &&& d.decrease_events == c.decrease_events + if delay is High {
                1int
            } else {
                0int
            }
            &&& d.loss_decrease_events == c.loss_decrease_events + if loss {
                1int
            } else {
                0int
            }
        }),
{
}

/// Two thirds of the room are for data and the rest for control packets, and none of it is
/// lost; a group of coded packets fits where there is room for two.
pub proof fn room_is_shared(total: nat)
    requires
        total >= 3,
    ensures
        ({
            let (data, control) = pacing::split_of(total);
            &&& data + control == total
            &&& data >= 1 && control >= 1
            &&& total >= 64 ==> data >= 32
            &&& 3 * data <= 2 * total || data == 32
            &&& 3 * data > 2 * total - 3
        }),
{
}

/// A destination's credit is what it had and its quantum, but no more than four quanta or
/// its next packet; after its turn it has what it did not use.
pub proof fn credit_is_spent(deficit: usize, quantum: usize, front: nat)
    requires
        deficit + quantum <= usize::MAX,
        quantum * 4 <= usize::MAX,
    ensures
        ({
            let c = pacing::credit(deficit, quantum, front);
            &&& c <= deficit + quantum
            &&& c <= quantum * 4 || c <= front
            &&& deficit + quantum <= quantum * 4 ==> c == deficit + quantum
            &&& front <= deficit + quantum ==> c >= front
        }),
{
}

/// The drain is set as the network says, each setting by its own, where all of them are in
/// range.
pub proof fn networks_set_the_drain(cfg: NetworkConfig)
    requires
        1 <= cfg.base_max_burst <= cfg.ramp_max_burst <= 200,
        1 <= cfg.drain_max_burst <= cfg.ramp_max_burst,
        cfg.apd_spinloop_budget_ms <= 100,
        1 <= cfg.pace_tick_us <= 1_000_000,
        cfg.apd_drain_tick_us <= cfg.pace_tick_us,
        cfg.apd_confirm_ticks <= 10,
        cfg.apd_cooldown_ms <= 500,
        3 <= cfg.apd_max_sojourn_ms <= 500,
        1 <= cfg.apd_target_sojourn_ms <= 200,
        cfg.apd_target_sojourn_ms + 2 <= cfg.apd_max_sojourn_ms,
    ensures
        ({
            let a = apd::apd_of(cfg);
            &&& a.enabled == cfg.apd_enabled
            &&& a.ramp_max_burst == cfg.ramp_max_burst
            &&& a.drain_max_burst == cfg.drain_max_burst
            &&& a.spinloop_budget_ms == cfg.apd_spinloop_budget_ms
            &&& a.drain_tick_us == cfg.apd_drain_tick_us
            &&& a.confirm_ticks == cfg.apd_confirm_ticks
            &&& a.cooldown_ms == cfg.apd_cooldown_ms
            &&& a.drain_freeze_drr == cfg.apd_drain_freeze_drr
            &&& a.sojourn_enabled == cfg.apd_sojourn_enabled
            &&& a.max_sojourn_ms == cfg.apd_max_sojourn_ms
            &&& a.target_sojourn_ms == cfg.apd_target_sojourn_ms
            &&& a.require_cc_headroom == cfg.apd_require_cc_headroom
        }),
{
}

/// A drain that has not begun waits in its pause, which is over, and has counted nothing.
pub proof fn drains_begin_at_rest(cfg: ApdConfig, i: ApdInput)
    ensures
        ({
            let st = apd::fresh_apd(cfg);
            &&& st.phase == ApdPhase::Cooldown && st.cooldown_until is None && st.cfg == cfg
            &&& st.drain_episodes == 0 && st.packets_drained == 0 && st.drain_budget_hits == 0
                && st.drain_ms_total == 0
            &&& apd::stepped(st, i).0.phase == ApdPhase::Alert
        }),
{
}

/// What the drain is told at a tick: how full the queues are, and how long the packet has
/// waited that has waited longest. Where the drain is off, a tick sends the base burst.
pub proof fn drains_are_told(v: PacerView, f: TickFill, now: u64)
    ensures
        ({
            let i = pacing_tick::drain_input(v, f, now);
            &&& i.base_burst == v.cfg.base_max_burst && i.ramp_target == f.ramp_target
            &&& i.above_high == f.above_high && i.below_low == f.below_low && i.rising == f.rising
                && i.cc_sendable == f.cc_sendable
            &&& i.now == now
        }),
        !v.apd.cfg.enabled ==> pacing_tick::decided(v, f, now).0 == v && pacing_tick::decided(
            v,
            f,
            now,
        ).1.effective_burst == v.cfg.base_max_burst && !pacing_tick::decided(v, f, now).1.freeze_drr,
        pacing_tick::decided(v, f, now).0.control == v.control,
        pacing_tick::decided(v, f, now).0.lanes == v.lanes,
        pacing_tick::decided(v, f, now).0.rtx == v.rtx,
{
}

/// Settings that the pacer can work with: quanta of a packet at least, a threshold between 64
/// and 512 bytes, no more than 8192 bytes kept of a tick, and queues that share the room.
pub proof fn pacer_settings_in_range(c: PacingConfig)
    requires
        3 <= c.max_queue_packets <= 100_000,
    ensures
        ({
            let s = pacing::config_sane(c);
            &&& s.drr_quantum >= 1500
            &&& 64 <= s.drr_small_packet_threshold_bytes <= 512
            &&& 64 <= c.drr_small_packet_threshold_bytes <= 512
                ==> s.drr_small_packet_threshold_bytes == c.drr_small_packet_threshold_bytes
            &&& s.min_control_reserved_bytes_per_tick <= 8192
            &&& c.min_control_reserved_bytes_per_tick <= 8192
                ==> s.min_control_reserved_bytes_per_tick == c.min_control_reserved_bytes_per_tick
            &&& s.min_retransmit_reserved_bytes_per_tick <= 8192
            &&& c.min_retransmit_reserved_bytes_per_tick <= 8192
                ==> s.min_retransmit_reserved_bytes_per_tick
                == c.min_retransmit_reserved_bytes_per_tick
            &&& s.max_data_queue_packets + s.max_control_queue_packets == c.max_queue_packets
            &&& s.max_data_queue_packets >= s.max_control_queue_packets
            &&& s.max_retransmit_queue_packets >= 4
            &&& s.max_retransmit_queue_packets > 4 ==> s.max_retransmit_queue_packets
                == s.max_control_queue_packets / 3
            &&& s.tick_us == c.tick_us && s.target_pps == c.target_pps && s.base_max_burst
                == c.base_max_burst && s.drr_enabled == c.drr_enabled && s.target_bps
                == c.target_bps
        }),
{
}

/// How a packet is counted by the lane that it came from.
pub proof fn packets_are_counted_by_lane(l: LaneView, cfg: LaneConfig, now: u64)
    requires
        l.small.len() + l.bulk.len() > 0,
    ensures
        ({
            let k = lane::pop_kind(l, cfg, now);
            let e = lane::lane_front(l, cfg, now);
            &&& !cfg.priority_on ==> k == PeerPopKind::Bulk
            &&& k == PeerPopKind::SmallPriority ==> cfg.priority_on && l.small.len() > 0 && e
                == l.small[0]
            &&& k == PeerPopKind::BulkForced ==> cfg.priority_on && l.bulk.len() > 0 && e
                == l.bulk[0] && (l.small_run >= 8 || now - l.bulk[0].enqueued_at >= 8000)
            &&& cfg.priority_on && k == PeerPopKind::Bulk ==> l.small.len() == 0 && e == l.bulk[0]
        }),
{
}

/// The packets of a destination that have waited longest are those that have waited longest
/// in either lane.
pub proof fn oldest_of_both_lanes(l: LaneView, now: u64)
    ensures
        l.small.len() > 0 ==> lane::hol_age(l, now) >= engine_state::elapsed(
            now,
            l.small[0].enqueued_at,
        ),
        l.bulk.len() > 0 ==> lane::hol_age(l, now) >= engine_state::elapsed(
            now,
            l.bulk[0].enqueued_at,
        ),
        l.small.len() + l.bulk.len() == 0 ==> lane::hol_age(l, now) == 0,
{
}

/// The round trip times that are known are those of destinations for which packets wait, in
/// their order.
pub proof fn known_round_trips(v: PacerView, n: nat)
    requires
        n <= v.lanes.len(),
    ensures
        pacing_engine::known_rtts(v.lanes, n) == v.lanes.take(n as int).filter(
            |l: (crate::addr::Endpoint, LaneView)|
                l.1.small.len() + l.1.bulk.len() > 0 && l.1.rtt_bits is Some,
        ).map_values(|l: (crate::addr::Endpoint, LaneView)| l.1.rtt_bits->0),
        pacing_engine::shed_due(v, true) <==> v.cfg.shed.enabled && v.non_empty > 0,
        !pacing_engine::shed_due(v, false),
    decreases n,
{
    reveal(Seq::filter);
    let p = |l: (crate::addr::Endpoint, LaneView)|
        l.1.small.len() + l.1.bulk.len() > 0 && l.1.rtt_bits is Some;
    let f = |l: (crate::addr::Endpoint, LaneView)| l.1.rtt_bits->0;
    let t = v.lanes.take(n as int);
    if n == 0 {
        assert(t =~= Seq::<(crate::addr::Endpoint, LaneView)>::empty());
        assert(t.filter(p).map_values(f) =~= Seq::<u32>::empty());
    } else {
        known_round_trips(v, (n - 1) as nat);
        assert(t.drop_last() =~= v.lanes.take(n - 1));
        assert(t.last() == v.lanes[n - 1]);
        let rest = t.drop_last().filter(p);
        assert(rest.push(t.last()).map_values(f) =~= rest.map_values(f).push(f(t.last())));
    }
}

} // verus!
