use floatnet::addr::{Endpoint, IpAddr};
use floatnet::apd::{
    apd_config_from_network, shed_config_from_network, ApdConfig, ApdDecision, ApdInput, ApdPhase,
    ShedConfig,
};
use floatnet::config::NetworkConfig;
use floatnet::lane::{LaneConfig, PeerDataQueue, PeerPopKind, QueuedData};
use floatnet::pacing::{
    queue_split_limits, NextPacket, PacingConfig, PacingEngine, PeerTerms,
};
use floatnet::pacing_defaults::{
    PaceRateMode, DRR_SMALL_PACKET_THRESHOLD_MAX, DRR_SMALL_PACKET_THRESHOLD_MIN,
    PACE_RESERVED_BYTES_PER_TICK_MAX,
};
use floatnet::pacing_tick::{Outgoing, SendOutcome, TickEnd, TickFill};

/// A time in microseconds, long after the start.
const NOW: u64 = 1_000_000_000;

fn addr(port: u16) -> Endpoint {
    Endpoint { ip: IpAddr::V4(u32::from_be_bytes([127, 0, 0, 1])), port }
}

/// Every destination may send its plain share.
fn terms(p: &PacingEngine) -> Vec<PeerTerms> {
    let t = PeerTerms { open: true, quantum: p.config.drr_quantum, scaled: false };
    vec![t; p.peer_queues.len()]
}

fn pop(p: &mut PacingEngine) -> Option<NextPacket> {
    let t = terms(p);
    p.pop_next(&t, NOW)
}

fn queue(p: &PacingEngine, dest: Endpoint) -> &PeerDataQueue {
    p.peer_queues.at(p.peer_queues.index_of(dest).unwrap()).1
}

/// A packet waits at the head of the queue for `dest` since `age_ms`.
fn push_aged(p: &mut PacingEngine, dest: Endpoint, len: usize, age_ms: u64, priority_on: bool) {
    if p.peer_queues.index_of(dest).is_none() {
        p.peer_queues.add(dest);
    }
    let i = p.peer_queues.index_of(dest).unwrap();
    let q = p.peer_queues.at_mut(i);
    let was_empty = q.is_empty();
    q.push_front_requeue(
        QueuedData { pkt: vec![0u8; len], enqueued_at: NOW - 1000 * age_ms },
        LaneConfig { priority_on, threshold: 200 },
    );
    if was_empty {
        p.non_empty_peers += 1;
    }
}

#[test]
fn remove_peer_adjusts_cursor_safely() {
    let mut p = PacingEngine::new();
    p.enqueue_peer(b"A".to_vec(), addr(1), NOW);
    p.enqueue_peer(b"B".to_vec(), addr(2), NOW);
    p.enqueue_peer(b"C".to_vec(), addr(3), NOW);
    p.drr_cursor = 2;
    p.remove_peer(addr(1));
    assert!(p.drr_cursor <= p.peer_queues.len().max(1));
}

#[test]
fn drr_no_starvation_for_small_peers() {
    let mut p = PacingEngine::new();
    p.config.drr_quantum = 1500;
    for _ in 0..20 {
        p.enqueue_peer(vec![0u8; 200], addr(10), NOW);
    }
    p.enqueue_peer(vec![1u8; 200], addr(11), NOW);
    p.enqueue_peer(vec![2u8; 200], addr(12), NOW);

    let mut saw_11 = false;
    let mut saw_12 = false;
    for _ in 0..10 {
        if let Some(NextPacket::Data { dest, .. }) = pop(&mut p) {
            if dest == addr(11) {
                saw_11 = true;
            } else if dest == addr(12) {
                saw_12 = true;
            }
        }
    }
    assert!(saw_11);
    assert!(saw_12);
}

#[test]
fn drr_single_peer_throughput_sanity() {
    let mut p = PacingEngine::new();
    p.config.drr_quantum = 1500;
    p.config.max_data_queue_packets = 1000;
    for _ in 0..1000 {
        p.enqueue_peer(vec![9u8; 200], addr(20), NOW);
    }
    let mut popped = 0usize;
    for _ in 0..1000 {
        if let Some(NextPacket::Data { .. }) = pop(&mut p) {
            popped += 1;
        }
    }
    assert_eq!(popped, 1000);
}

#[test]
fn try_enqueue_peer_batch_all_or_nothing() {
    let mut p = PacingEngine::new();
    p.config.max_data_queue_packets = 4;
    let d = addr(7);
    assert!(p.enqueue_peer(b"a".to_vec(), d, NOW));
    assert!(p.enqueue_peer(b"b".to_vec(), d, NOW));
    let pkts = vec![b"c".to_vec(), b"d".to_vec(), b"e".to_vec()];
    assert!(!p.try_enqueue_peer_batch(d, pkts, None, None, NOW));
    assert_eq!(p.peer_data_queue_len(d), 2);
    let pkts2 = vec![b"c".to_vec()];
    assert!(p.try_enqueue_peer_batch(d, pkts2, None, None, NOW));
    assert_eq!(p.peer_data_queue_len(d), 3);
}

#[test]
fn first_control_packet_after_idle_is_not_interleave_delayed() {
    let mut p = PacingEngine::new();
    p.enqueue_control(b"C".to_vec(), addr(1), NOW);
    assert!(matches!(pop(&mut p), Some(NextPacket::Control(_))));
}

#[test]
fn apd_freeze_drr_interleaves_control_with_data() {
    let mut p = PacingEngine::new();
    p.config.max_control_queue_packets = 4;
    p.enqueue_peer(b"d1".to_vec(), addr(1), NOW);
    p.enqueue_peer(b"d2".to_vec(), addr(2), NOW);
    p.enqueue_control(b"c1".to_vec(), addr(3), NOW);
    p.enqueue_control(b"c2".to_vec(), addr(4), NOW);

    let mut saw_control_while_data_queued = false;
    let mut data_remaining = 2usize;
    for _ in 0..8 {
        let t = terms(&p);
        match p.pop_next_apd(&t, true, NOW) {
            Some(NextPacket::Control(_)) => {
                if data_remaining > 0 {
                    saw_control_while_data_queued = true;
                }
            }
            Some(NextPacket::Data { .. }) => {
                data_remaining = data_remaining.saturating_sub(1);
            }
            None => break,
        }
    }
    assert!(saw_control_while_data_queued);
}

/// A pacer with the marks by which its queues count as full or empty, and what
/// congestion control says.
struct Rig {
    p: PacingEngine,
    high: f32,
    low: f32,
    last_fill: f32,
    cc_sendable: bool,
}

impl Rig {
    /// The burst that fits queues that are so full.
    fn ramp_target(&self, fill: f32) -> u64 {
        let base = self.p.config.base_max_burst;
        let most = self.p.apd.cfg.ramp_max_burst.max(base);
        if (self.high - self.low).abs() < f32::EPSILON {
            return if fill > self.high { most } else { base };
        }
        if fill <= self.low {
            return base;
        }
        let t = ((fill - self.low) / (self.high - self.low)).clamp(0.0, 1.0);
        (base as f32 + t * (most as f32 - base as f32)).round() as u64
    }

    fn fill(&mut self, fill: f32) -> TickFill {
        let rising = fill > self.last_fill + f32::EPSILON;
        if self.p.apd.phase != ApdPhase::Drain {
            self.last_fill = fill;
        }
        TickFill {
            above_high: fill > self.high,
            below_low: fill < self.low,
            rising,
            ramp_target: self.ramp_target(fill),
            cc_sendable: self.cc_sendable,
            full_enough: false,
        }
    }

    fn step(&mut self, fill: f32, now: u64, hol_ms: f32) -> ApdDecision {
        let f = self.fill(fill);
        self.p.apd.apd_step(&ApdInput {
            base_burst: self.p.config.base_max_burst,
            above_high: f.above_high,
            below_low: f.below_low,
            rising: f.rising,
            ramp_target: f.ramp_target,
            hol_sojourn: (1000.0 * hol_ms) as u64,
            cc_sendable: f.cc_sendable,
            now,
        })
    }
}

fn apd_engine() -> Rig {
    let mut p = PacingEngine::new();
    let mut cfg = p.config;
    cfg.apd = ApdConfig {
        enabled: true,
        ramp_max_burst: 24,
        drain_max_burst: 6,
        spinloop_budget_ms: 6,
        drain_tick_us: 0,
        confirm_ticks: 3,
        cooldown_ms: 80,
        drain_freeze_drr: true,
        sojourn_enabled: true,
        max_sojourn_ms: 20,
        target_sojourn_ms: 8,
        require_cc_headroom: true,
    };
    p.set_config(cfg);
    Rig { p, high: 0.75, low: 0.30, last_fill: 0.0, cc_sendable: true }
}

#[test]
fn apd_disabled_uses_base_burst() {
    let mut p = PacingEngine::new();
    let mut cfg = p.config;
    cfg.apd.enabled = false;
    p.set_config(cfg);
    assert!(!p.config.apd.enabled);
    let snap = p.queue_snapshot();
    assert_eq!(snap.data_queued + snap.control_queued + snap.retransmit_queued, 0);
    assert_eq!(p.apd_signal(), (false, 0));
}

#[test]
fn apd_fill_ratio_zero_denominator_safe() {
    let p = PacingEngine::new();
    let snap = p.queue_snapshot();
    assert_eq!(snap.data_queued + snap.control_queued + snap.retransmit_queued, 0);
    assert!(snap.queue_capacity > 0);
}

#[test]
fn apd_fill_ratio_clamped_to_one() {
    let mut r = apd_engine();
    r.p.config.max_data_queue_packets = 2;
    for _ in 0..100 {
        r.p.enqueue_peer(b"x".to_vec(), addr(1), NOW);
    }
    let snap = r.p.queue_snapshot();
    assert!(snap.data_queued + snap.control_queued + snap.retransmit_queued <= snap.queue_capacity);
}

#[test]
fn apd_cooldown_to_alert_transition() {
    let mut r = apd_engine();
    r.step(0.0, NOW, 0.0);
    assert_eq!(r.p.apd.phase, ApdPhase::Alert);
    assert!(!r.p.apd.last_pure_spin);
}

#[test]
fn apd_alert_confirm_ticks_required_before_drain() {
    let mut r = apd_engine();
    r.step(0.0, NOW, 0.0);
    assert_eq!(r.p.apd.phase, ApdPhase::Alert);

    r.step(0.80, NOW, 0.0);
    assert_eq!(r.p.apd.phase, ApdPhase::Alert);
    r.step(0.80, NOW, 0.0);
    assert_eq!(r.p.apd.phase, ApdPhase::Alert);
    r.step(0.80, NOW, 0.0);
    assert_eq!(r.p.apd.phase, ApdPhase::Drain);
    assert_eq!(r.p.apd.drain_episodes, 1);
}

#[test]
fn apd_alert_counter_decrements_on_low_fill() {
    let mut r = apd_engine();
    r.step(0.0, NOW, 0.0);
    r.step(0.80, NOW, 0.0);
    r.step(0.20, NOW, 0.0);
    assert_eq!(r.p.apd.confirm_counter, 0);
    assert_eq!(r.p.apd.phase, ApdPhase::Alert);
}

#[test]
fn apd_drain_exits_on_low_watermark() {
    let mut r = apd_engine();
    r.step(0.0, NOW, 0.0);
    for _ in 0..3 {
        r.step(0.80, NOW, 0.0);
    }
    assert_eq!(r.p.apd.phase, ApdPhase::Drain);

    r.step(0.10, NOW, 0.0);
    assert_eq!(r.p.apd.phase, ApdPhase::Cooldown);
    assert!(r.p.apd.cooldown_until.is_some());
    assert_eq!(r.p.apd_signal(), (false, 0));
}

#[test]
fn apd_drain_uses_drain_max_burst() {
    let mut r = apd_engine();
    r.step(0.0, NOW, 0.0);
    for _ in 0..3 {
        r.step(0.80, NOW, 0.0);
    }
    let decision = r.step(0.80, NOW, 0.0);
    assert_eq!(decision.effective_burst, 6);
}

#[test]
fn apd_no_drain_below_high_watermark() {
    let mut r = apd_engine();
    r.step(0.0, NOW, 0.0);
    for _ in 0..10 {
        r.step(0.50, NOW, 0.0);
        assert_eq!(r.p.apd.phase, ApdPhase::Alert);
    }
}

#[test]
fn apd_budget_exhaustion_triggers_cooldown() {
    let mut r = apd_engine();
    r.p.apd.cfg.spinloop_budget_ms = 1;
    r.step(0.0, NOW, 0.0);
    for _ in 0..3 {
        r.step(0.80, NOW, 0.0);
    }
    assert_eq!(r.p.apd.phase, ApdPhase::Drain);
    r.step(0.80, NOW + 5_000, 0.0);
    assert_eq!(r.p.apd.phase, ApdPhase::Cooldown);
    assert_eq!(r.p.apd.drain_budget_hits, 1);
}

#[test]
fn apd_spinloop_budget_zero_no_time_exit() {
    let mut r = apd_engine();
    r.p.apd.cfg.spinloop_budget_ms = 0;
    r.step(0.0, NOW, 0.0);
    for _ in 0..3 {
        r.step(0.80, NOW, 0.0);
    }
    assert_eq!(r.p.apd.phase, ApdPhase::Drain);
    for _ in 0..5 {
        r.step(0.80, NOW, 0.0);
        assert_eq!(r.p.apd.phase, ApdPhase::Drain);
    }
    assert_eq!(r.p.apd.drain_budget_hits, 0);
}

#[test]
fn apd_spinloop_budget_zero_exits_on_low_fill() {
    let mut r = apd_engine();
    r.p.apd.cfg.spinloop_budget_ms = 0;
    r.step(0.0, NOW, 0.0);
    for _ in 0..3 {
        r.step(0.80, NOW, 0.0);
    }
    assert_eq!(r.p.apd.phase, ApdPhase::Drain);
    r.step(0.10, NOW, 0.0);
    assert_eq!(r.p.apd.phase, ApdPhase::Cooldown);
}

#[test]
fn apd_confirm_ticks_zero_enters_drain_immediately() {
    let mut r = apd_engine();
    r.p.apd.cfg.confirm_ticks = 0;
    r.step(0.0, NOW, 0.0);
    assert_eq!(r.p.apd.phase, ApdPhase::Alert);
    r.step(0.80, NOW, 0.0);
    assert_eq!(r.p.apd.phase, ApdPhase::Drain);
}

#[test]
fn apd_clamp_spin_and_confirm_ranges() {
    let mut apd = ApdConfig::default();
    apd.spinloop_budget_ms = 0;
    apd.confirm_ticks = 0;
    apd.clamp_to_user_ranges(500, 12);
    assert_eq!(apd.spinloop_budget_ms, 0);
    assert_eq!(apd.confirm_ticks, 0);
    apd.spinloop_budget_ms = 200;
    apd.confirm_ticks = 99;
    apd.clamp_to_user_ranges(500, 12);
    assert_eq!(apd.spinloop_budget_ms, 100);
    assert_eq!(apd.confirm_ticks, 10);
}

#[test]
fn apd_set_config_resets_signal_cache() {
    let mut r = apd_engine();
    r.p.apd.last_pure_spin = true;
    r.p.apd.last_tick_us = 300;
    let cfg = r.p.config;
    r.p.set_config(cfg);
    assert_eq!(r.p.apd_signal(), (false, 0));
}

#[test]
fn apd_config_from_network_default_round_trip() {
    let net = NetworkConfig::default();
    let apd = apd_config_from_network(&net);
    assert!(apd.enabled);
    assert_eq!(apd.ramp_max_burst, 8);
    assert_eq!(apd.drain_max_burst, 2);
    assert_eq!(apd.drain_tick_us, 50);
    assert_eq!(apd.confirm_ticks, 2);
    assert_eq!(apd.cooldown_ms, 2);
    assert_eq!(apd.spinloop_budget_ms, 4);
    assert!(apd.sojourn_enabled);
    assert_eq!(apd.max_sojourn_ms, 6);
    assert_eq!(apd.target_sojourn_ms, 2);
    assert!(apd.require_cc_headroom);
}

#[test]
fn apd_clamp_to_user_ranges_caps_drain_tick() {
    let mut apd = ApdConfig::default();
    apd.drain_tick_us = 9999;
    apd.ramp_max_burst = 1;
    apd.clamp_to_user_ranges(500, 12);
    assert_eq!(apd.drain_tick_us, 500);
    assert_eq!(apd.ramp_max_burst, 12);
}

#[test]
fn apd_cap_mode_confirm_then_drain() {
    let mut r = apd_engine();
    r.high = 0.5;
    r.low = 0.5;
    r.p.apd.cfg.confirm_ticks = 1;
    r.step(0.0, NOW, 0.0);
    assert_eq!(r.p.apd.phase, ApdPhase::Alert);
    r.step(0.51, NOW, 0.0);
    assert_eq!(r.p.apd.phase, ApdPhase::Drain);
}

#[test]
fn apd_cap_mode_exits_below_cap() {
    let mut r = apd_engine();
    r.high = 0.5;
    r.low = 0.5;
    r.p.apd.cfg.confirm_ticks = 1;
    r.step(0.0, NOW, 0.0);
    r.step(0.51, NOW, 0.0);
    assert_eq!(r.p.apd.phase, ApdPhase::Drain);
    r.step(0.49, NOW, 0.0);
    assert_eq!(r.p.apd.phase, ApdPhase::Cooldown);
}

fn pin_apd_ramp(r: &mut Rig, now: u64) {
    r.step(0.0, now, 0.0);
    for _ in 0..2 {
        r.step(0.80, now, 0.0);
    }
    let ceiling = r.p.apd.cfg.ramp_max_burst.max(r.p.config.base_max_burst);
    r.p.apd.ramp_burst = ceiling;
    assert_eq!(r.p.apd.phase, ApdPhase::Alert);
}

#[test]
fn apd_sojourn_arm_enters_drain_when_fill_low() {
    let mut r = apd_engine();
    pin_apd_ramp(&mut r, NOW);
    for _ in 0..3 {
        r.step(0.05, NOW, 25.0);
    }
    assert_eq!(r.p.apd.phase, ApdPhase::Drain);
    assert_eq!(r.p.apd.drain_arm_sojourn, 1);
}

#[test]
fn apd_sojourn_exit_requires_young_hol() {
    let mut r = apd_engine();
    pin_apd_ramp(&mut r, NOW);
    for _ in 0..3 {
        r.step(0.05, NOW, 25.0);
    }
    assert_eq!(r.p.apd.phase, ApdPhase::Drain);
    r.step(0.05, NOW, 15.0);
    assert_eq!(r.p.apd.phase, ApdPhase::Drain);
    r.step(0.05, NOW, 5.0);
    assert_eq!(r.p.apd.phase, ApdPhase::Cooldown);
}

#[test]
fn apd_sojourn_disabled_exit_on_fill_only() {
    let mut r = apd_engine();
    r.p.apd.cfg.sojourn_enabled = false;
    pin_apd_ramp(&mut r, NOW);
    for _ in 0..3 {
        r.step(0.80, NOW, 0.0);
    }
    assert_eq!(r.p.apd.phase, ApdPhase::Drain);
    r.step(0.10, NOW, 50.0);
    assert_eq!(r.p.apd.phase, ApdPhase::Cooldown);
}

#[test]
fn apd_sojourn_sanitize_target_below_max() {
    let mut apd = ApdConfig::default();
    apd.max_sojourn_ms = 10;
    apd.target_sojourn_ms = 12;
    apd.sanitize();
    assert!(apd.target_sojourn_ms + 2 <= apd.max_sojourn_ms);
}

#[test]
fn max_hol_sojourn_ms_from_aged_data_packet() {
    let mut p = PacingEngine::new();
    push_aged(&mut p, addr(9), 5, 30, false);
    assert!(p.max_hol_sojourn(NOW) >= 25_000);
    assert_eq!(p.max_hol_sojourn(NOW), 30_000);
}

/// One tick in which every packet goes out, with room for `budget` packets.
fn tick(p: &mut PacingEngine, fill: TickFill, mut budget: u64) -> usize {
    let mut run = p.open_tick(fill, NOW, || false);
    loop {
        let t = terms(p);
        match p.tick_next(&mut run, budget > 0, &t, NOW) {
            Some(out) => {
                assert!(p.tick_outcome(&mut run, out, SendOutcome::Sent).is_none());
                budget -= 1;
            }
            None => return run.sent,
        }
    }
}

fn calm() -> TickFill {
    TickFill {
        above_high: false,
        below_low: true,
        rising: false,
        ramp_target: 1,
        cc_sendable: true,
        full_enough: false,
    }
}

fn pacing_for_reserved_tick(ctrl: usize, rtx: usize) -> PacingEngine {
    let mut p = PacingEngine::new();
    let mut cfg = p.config;
    cfg.apd.enabled = false;
    cfg.pace_rate_mode = PaceRateMode::Pps;
    cfg.base_max_burst = 4;
    cfg.min_control_reserved_bytes_per_tick = ctrl;
    cfg.min_retransmit_reserved_bytes_per_tick = rtx;
    p.set_config(cfg);
    p
}

#[test]
fn reserved_bytes_sanitize_clamps() {
    let mut cfg = PacingConfig::default();
    cfg.min_control_reserved_bytes_per_tick = 99_999;
    cfg.min_retransmit_reserved_bytes_per_tick = 99_999;
    cfg.sanitize();
    assert_eq!(cfg.min_control_reserved_bytes_per_tick, PACE_RESERVED_BYTES_PER_TICK_MAX as usize);
    assert_eq!(
        cfg.min_retransmit_reserved_bytes_per_tick,
        PACE_RESERVED_BYTES_PER_TICK_MAX as usize
    );
}

#[test]
fn reserved_control_drains_with_data_flood() {
    let dest = addr(42);
    let mut p = pacing_for_reserved_tick(200, 0);
    for _ in 0..20 {
        p.enqueue_peer(b"dddddddddd".to_vec(), dest, NOW);
    }
    p.enqueue_control(b"ctrl".to_vec(), dest, NOW);
    let sent = tick(&mut p, calm(), 64);
    assert!(sent >= 1);
    assert!(p.reserved_ctrl_sends() >= 1);
    assert_eq!(p.queue_snapshot().control_queued, 0);
}

#[test]
fn reserved_zero_does_not_prefix_drain_control() {
    let dest = addr(43);
    let mut p = pacing_for_reserved_tick(0, 0);
    p.config.base_max_burst = 1;
    p.enqueue_peer(b"data".to_vec(), dest, NOW);
    p.enqueue_control(b"ctrl".to_vec(), dest, NOW);
    tick(&mut p, calm(), 64);
    assert_eq!(p.reserved_ctrl_sends(), 0);
    assert_eq!(p.reserved_rtx_sends(), 0);
}

#[test]
fn reserved_rtx_drains_before_control() {
    let dest = addr(44);
    let mut p = pacing_for_reserved_tick(200, 200);
    p.config.target_pps = 1;
    p.enqueue_control(b"ctrl".to_vec(), dest, NOW);
    p.enqueue_retransmit(b"rtx".to_vec(), dest, NOW);
    tick(&mut p, calm(), 1);
    assert_eq!(p.reserved_rtx_sends(), 1);
    assert_eq!(p.reserved_ctrl_sends(), 0);
    assert_eq!(p.queue_snapshot().control_queued, 1);
}

#[test]
fn reserved_control_drains_under_apd_drain_freeze_drr() {
    let dest = addr(45);
    let mut r = apd_engine();
    r.p.config.min_control_reserved_bytes_per_tick = 200;
    r.p.config.min_retransmit_reserved_bytes_per_tick = 0;
    pin_apd_ramp(&mut r, NOW);
    for _ in 0..3 {
        r.step(0.05, NOW, 25.0);
    }
    assert_eq!(r.p.apd.phase, ApdPhase::Drain);
    for _ in 0..20 {
        r.p.enqueue_peer(b"dddddddddd".to_vec(), dest, NOW);
    }
    r.p.enqueue_control(b"ctrl".to_vec(), dest, NOW);
    let f = r.fill(0.80);
    tick(&mut r.p, f, 64);
    assert_eq!(r.p.apd.phase, ApdPhase::Drain);
    assert!(r.p.reserved_ctrl_sends() >= 1);
    assert_eq!(r.p.queue_snapshot().control_queued, 0);
}

fn pop_next_data(p: &mut PacingEngine) -> Option<Vec<u8>> {
    match pop(p) {
        Some(NextPacket::Data { pkt, .. }) => Some(pkt),
        _ => None,
    }
}

fn shed_engine() -> PacingEngine {
    let mut p = PacingEngine::new();
    p.config.shed.enabled = true;
    p.config.shed.max_sojourn_ms = 10;
    p.config.shed.max_per_tick = 8;
    p
}

fn push_aged_bulk(p: &mut PacingEngine, dest: Endpoint, age_ms: u64) {
    push_aged(p, dest, 300, age_ms, true);
}

#[test]
fn shed_off_no_drop_on_aged_bulk() {
    let mut p = shed_engine();
    p.config.shed.enabled = false;
    let dest = addr(90);
    push_aged_bulk(&mut p, dest, 30);
    let before = p.peer_data_queue_len(dest);
    p.shed_stale_bulk_rr(true, NOW, || false);
    assert_eq!(p.peer_data_queue_len(dest), before);
    assert_eq!(p.shed_sojourn(), 0);
}

#[test]
fn shed_on_fill_below_threshold_no_drop() {
    let mut p = shed_engine();
    let dest = addr(91);
    push_aged_bulk(&mut p, dest, 30);
    p.shed_stale_bulk_rr(false, NOW, || false);
    assert_eq!(p.peer_data_queue_len(dest), 1);
    assert_eq!(p.shed_sojourn(), 0);
}

#[test]
fn shed_on_aged_bulk_drops_only_bulk_preserves_small() {
    let mut p = shed_engine();
    let dest = addr(92);
    push_aged_bulk(&mut p, dest, 30);
    p.enqueue_peer(vec![0u8; 50], dest, NOW);
    p.shed_stale_bulk_rr(true, NOW, || false);
    let q = queue(&p, dest);
    assert_eq!(q.bulk.len(), 0);
    assert_eq!(q.small.len(), 1);
    assert_eq!(p.shed_sojourn(), 1);
}

#[test]
fn shed_respects_max_per_tick_cap() {
    let mut p = shed_engine();
    p.config.shed.max_per_tick = 1;
    let d1 = addr(93);
    let d2 = addr(94);
    push_aged_bulk(&mut p, d1, 30);
    push_aged_bulk(&mut p, d2, 30);
    assert_eq!(p.non_empty_peers, 2);
    p.shed_stale_bulk_rr(true, NOW, || false);
    let rem = p.peer_data_queue_len(d1) + p.peer_data_queue_len(d2);
    assert_eq!(rem, 1);
    assert_eq!(p.shed_sojourn(), 1);
}

#[test]
fn shed_boundary_fill_equal_min_fill() {
    let mut p = shed_engine();
    let dest = addr(95);
    push_aged_bulk(&mut p, dest, 30);
    let snap = p.queue_snapshot();
    let fill = snap.data_queued as f32 / snap.queue_capacity as f32;
    let min_fill = fill;
    p.shed_stale_bulk_rr(!(fill < min_fill), NOW, || false);
    assert_eq!(p.peer_data_queue_len(dest), 0);
    assert_eq!(p.shed_sojourn(), 1);
}

#[test]
fn shed_counter_separate_from_dropped_data() {
    let mut p = shed_engine();
    let dest = addr(96);
    push_aged_bulk(&mut p, dest, 30);
    p.shed_stale_bulk_rr(true, NOW, || false);
    assert_eq!(p.shed_sojourn(), 1);
    assert_eq!(p.dropped_data(), 0);
}

#[test]
fn shed_reset_session_runtime_resets_counter() {
    let mut p = shed_engine();
    let dest = addr(97);
    push_aged_bulk(&mut p, dest, 30);
    p.shed_stale_bulk_rr(true, NOW, || false);
    assert_eq!(p.shed_sojourn(), 1);
    p.reset_session_runtime();
    assert_eq!(p.shed_sojourn(), 0);
}

#[test]
fn drr_small_packet_priority_serves_small_first() {
    let mut p = PacingEngine::new();
    p.config.drr_small_packet_priority = true;
    p.config.drr_small_packet_threshold_bytes = 200;
    let d = addr(70);
    p.enqueue_peer(vec![0u8; 300], d, NOW);
    p.enqueue_peer(vec![0u8; 50], d, NOW);
    let pkt = pop_next_data(&mut p).expect("data");
    assert_eq!(pkt.len(), 50);
    assert!(p.drr_small_priority_pops() >= 1);
}

#[test]
fn drr_small_packet_priority_off_preserves_fifo() {
    let mut p = PacingEngine::new();
    p.config.drr_small_packet_priority = false;
    p.config.drr_small_packet_threshold_bytes = 200;
    let d = addr(71);
    p.enqueue_peer(vec![0u8; 300], d, NOW);
    p.enqueue_peer(vec![0u8; 50], d, NOW);
    let pkt = pop_next_data(&mut p).expect("data");
    assert_eq!(pkt.len(), 300);
    assert_eq!(p.drr_small_priority_pops(), 0);
}

#[test]
fn drr_bulk_force_after_consecutive_small_pops() {
    let mut p = PacingEngine::new();
    p.config.drr_small_packet_priority = true;
    p.config.drr_small_packet_threshold_bytes = 200;
    let d = addr(72);
    p.enqueue_peer(vec![0u8; 300], d, NOW);
    for _ in 0..8 {
        p.enqueue_peer(vec![0u8; 50], d, NOW);
    }
    for _ in 0..8 {
        let pkt = pop_next_data(&mut p).expect("small");
        assert_eq!(pkt.len(), 50);
    }
    let bulk = pop_next_data(&mut p).expect("bulk forced");
    assert_eq!(bulk.len(), 300);
    assert!(p.drr_bulk_force_pops() >= 1);
}

#[test]
fn drr_bulk_force_when_hol_aged_before_small() {
    let mut p = PacingEngine::new();
    p.config.drr_small_packet_priority = true;
    p.config.drr_small_packet_threshold_bytes = 200;
    let d = addr(74);
    push_aged(&mut p, d, 300, 20, true);
    p.enqueue_peer(vec![0u8; 50], d, NOW);
    let first = pop_next_data(&mut p).expect("aged bulk forced first");
    assert_eq!(first.len(), 300);
    assert!(p.drr_bulk_force_pops() >= 1);
    let second = pop_next_data(&mut p).expect("small after");
    assert_eq!(second.len(), 50);
}

#[test]
fn drr_hol_sojourn_includes_aged_bulk_behind_small() {
    let mut p = PacingEngine::new();
    p.config.drr_small_packet_priority = true;
    let dest = addr(73);
    push_aged(&mut p, dest, 300, 25, true);
    p.enqueue_peer(vec![0u8; 10], dest, NOW);
    assert!(p.max_hol_sojourn(NOW) >= 20_000);
}

#[test]
fn drr_small_threshold_sanitize_clamps() {
    let mut cfg = PacingConfig::default();
    cfg.drr_small_packet_threshold_bytes = 10;
    cfg.sanitize();
    assert_eq!(cfg.drr_small_packet_threshold_bytes, DRR_SMALL_PACKET_THRESHOLD_MIN);
    cfg.drr_small_packet_threshold_bytes = 900;
    cfg.sanitize();
    assert_eq!(cfg.drr_small_packet_threshold_bytes, DRR_SMALL_PACKET_THRESHOLD_MAX);
}

#[test]
fn background_cc_fifo_rate_limits_without_tokens() {
    let mut p = PacingEngine::new();
    p.config.drr_enabled = false;
    let throttled = addr(70);
    let clear = addr(71);
    p.enqueue_peer(vec![0u8; 1400], throttled, NOW);
    p.enqueue_peer(vec![1u8; 1400], clear, NOW);
    let mut t = terms(&p);
    t[p.peer_queues.index_of(throttled).unwrap()].open = false;
    match p.pop_next(&t, NOW) {
        Some(NextPacket::Data { dest, .. }) => assert_eq!(dest, clear),
        _ => panic!("expected clear peer data packet"),
    }
    assert!(p.cc_rate_limited_events() >= 1);
}

/// A packet waits for `dest`, and congestion control lets it go, or not.
fn wait_for_cc(r: &mut Rig, dest: Endpoint, open: bool) {
    if r.p.peer_data_queue_len(dest) == 0 {
        r.p.enqueue_peer(vec![0u8; 200], dest, NOW);
    }
    r.cc_sendable = r.p.any_peer_data_cc_sendable(true, &vec![open; r.p.peer_queues.len()]);
}

#[test]
fn apd_cc_headroom_suppresses_drain_and_ramp_pin() {
    let mut r = apd_engine();
    r.p.apd.cfg.confirm_ticks = 1;
    wait_for_cc(&mut r, addr(80), false);
    let ceiling = r.p.apd.cfg.ramp_max_burst.max(r.p.config.base_max_burst);
    r.step(0.0, NOW, 0.0);
    for _ in 0..8 {
        r.step(0.95, NOW, 100.0);
    }
    assert_ne!(r.p.apd.phase, ApdPhase::Drain);
    assert!(r.p.apd.ramp_burst < ceiling);
    assert!(r.p.apd_cc_headroom_suppressions() >= 1);
}

#[test]
fn apd_cc_headroom_allows_drain_when_peer_has_tokens() {
    let mut r = apd_engine();
    wait_for_cc(&mut r, addr(81), true);
    pin_apd_ramp(&mut r, NOW);
    r.p.apd.cfg.confirm_ticks = 1;
    r.step(0.95, NOW, 100.0);
    assert_eq!(r.p.apd.phase, ApdPhase::Drain);
}

#[test]
fn apd_cc_headroom_disabled_allows_drain_under_cc_starve() {
    let mut r = apd_engine();
    r.p.apd.cfg.require_cc_headroom = false;
    wait_for_cc(&mut r, addr(82), false);
    pin_apd_ramp(&mut r, NOW);
    r.p.apd.cfg.confirm_ticks = 1;
    r.step(0.95, NOW, 100.0);
    assert_eq!(r.p.apd.phase, ApdPhase::Drain);
}

#[test]
fn apd_cc_headroom_vacuous_without_data_peers_allows_drain() {
    let mut r = apd_engine();
    r.p.enqueue_control(b"ctrl".to_vec(), addr(83), NOW);
    r.cc_sendable = r.p.any_peer_data_cc_sendable(true, &vec![]);
    pin_apd_ramp(&mut r, NOW);
    r.p.apd.cfg.confirm_ticks = 1;
    r.step(0.95, NOW, 100.0);
    assert_eq!(r.p.apd.phase, ApdPhase::Drain);
}

#[test]
fn apd_cc_headroom_early_exits_drain_when_tokens_gone() {
    let mut r = apd_engine();
    r.p.apd.cfg.spinloop_budget_ms = 0;
    let dest = addr(84);
    wait_for_cc(&mut r, dest, true);
    pin_apd_ramp(&mut r, NOW);
    r.p.apd.cfg.confirm_ticks = 1;
    r.step(0.95, NOW, 100.0);
    assert_eq!(r.p.apd.phase, ApdPhase::Drain);
    wait_for_cc(&mut r, dest, false);
    r.step(0.95, NOW, 100.0);
    assert_eq!(r.p.apd.phase, ApdPhase::Cooldown);
    assert!(r.p.apd_cc_headroom_suppressions() >= 1);
}

#[test]
fn require_cc_headroom_is_on_unless_said_otherwise() {
    let net = NetworkConfig::default();
    assert!(net.apd_require_cc_headroom);
    assert!(apd_config_from_network(&net).require_cc_headroom);
}

#[test]
fn full_lane_drops_its_oldest_large_packet() {
    let cfg = LaneConfig { priority_on: true, threshold: 200 };
    let mut q = PeerDataQueue::new();
    assert!(q.push(QueuedData { pkt: vec![1; 10], enqueued_at: NOW }, 2, cfg));
    assert!(q.push(QueuedData { pkt: vec![2; 400], enqueued_at: NOW }, 2, cfg));
    assert!(!q.push(QueuedData { pkt: vec![3; 10], enqueued_at: NOW }, 2, cfg));
    assert_eq!(q.len(), 2);
    assert_eq!(q.small.len(), 2);
    assert_eq!(q.bulk.len(), 0);
}

#[test]
fn requeued_packet_comes_out_first() {
    let cfg = LaneConfig { priority_on: true, threshold: 200 };
    let mut q = PeerDataQueue::new();
    q.push_back_classified(QueuedData { pkt: vec![1; 10], enqueued_at: NOW }, cfg);
    q.push_front_requeue(QueuedData { pkt: vec![2; 10], enqueued_at: NOW }, cfg);
    let (e, kind) = q.pop_data(cfg, NOW).unwrap();
    assert_eq!(e.pkt, vec![2; 10]);
    assert_eq!(kind, PeerPopKind::SmallPriority);
    assert_eq!(q.front_len(cfg, NOW), 10);
}

#[test]
fn peers_keep_their_turn_when_one_leaves() {
    let mut p = PacingEngine::new();
    for port in 1..5 {
        p.enqueue_peer(vec![port as u8; 10], addr(port), NOW);
    }
    p.remove_peer(addr(2));
    assert_eq!(p.peer_queues.len(), 3);
    assert_eq!(p.non_empty_peers, 3);
    let lens = p.peer_data_lens_snapshot();
    assert!(lens.iter().all(|(ep, n)| *ep != addr(2) && *n == 1));
    let mut seen = vec![];
    while let Some(NextPacket::Data { dest, pkt, .. }) = pop(&mut p) {
        assert_eq!(pkt, vec![dest.port as u8; 10]);
        seen.push(dest.port);
    }
    seen.sort();
    assert_eq!(seen, vec![1, 3, 4]);
    assert_eq!(p.non_empty_peers, 0);
}

#[test]
fn full_control_queue_gives_way_to_new_packet() {
    let mut p = PacingEngine::new();
    p.config.max_control_queue_packets = 1;
    assert!(!p.enqueue_control(b"one".to_vec(), addr(1), NOW));
    assert!(p.enqueue_control(b"two".to_vec(), addr(1), NOW));
    assert_eq!(p.dropped_control_normal(), 1);
    match pop(&mut p) {
        Some(NextPacket::Control(q)) => assert_eq!(q.pkt, b"two".to_vec()),
        _ => panic!("a control packet waits"),
    }
}

#[test]
fn blocked_packet_is_next_again() {
    let mut p = pacing_for_reserved_tick(0, 0);
    let dest = addr(46);
    p.enqueue_peer(b"first".to_vec(), dest, NOW);
    p.enqueue_peer(b"second".to_vec(), dest, NOW);
    let mut run = p.open_tick(calm(), NOW, || false);
    let t = terms(&p);
    let out = p.tick_next(&mut run, true, &t, NOW).unwrap();
    assert_eq!(out.bytes(), &b"first".to_vec());
    assert!(out.is_data());
    let end = p.tick_outcome(&mut run, out, SendOutcome::WouldBlock);
    assert_eq!(end, Some(TickEnd::Progress { sent: 0 }));
    assert!(p.tick_next(&mut run, true, &t, NOW).is_none());
    assert_eq!(pop_next_data(&mut p), Some(b"first".to_vec()));
    assert_eq!(pop_next_data(&mut p), Some(b"second".to_vec()));
}

#[test]
fn socket_is_dead_after_five_errors() {
    let mut p = pacing_for_reserved_tick(0, 200);
    let dest = addr(47);
    p.enqueue_retransmit(b"again".to_vec(), dest, NOW);
    for n in 1..6 {
        let mut run = p.open_tick(calm(), NOW, || false);
        let t = terms(&p);
        let out = p.tick_next(&mut run, true, &t, NOW).unwrap();
        assert!(matches!(out, Outgoing::Reserved { retransmit: true, .. }));
        let end = p.tick_outcome(&mut run, out, SendOutcome::Failed).unwrap();
        if n < 5 {
            assert_eq!(end, TickEnd::Progress { sent: 0 });
        } else {
            assert_eq!(end, TickEnd::SocketDead { last_failed_dest: dest });
        }
    }
    assert_eq!(p.queue_snapshot().retransmit_queued, 1);
}

#[test]
fn tick_remembers_the_longest_wait() {
    let mut r = apd_engine();
    push_aged(&mut r.p, addr(48), 300, 30, true);
    let f = r.fill(0.0);
    r.p.open_tick(f, NOW + 500, || false);
    assert_eq!(r.p.apd_sojourn_observability(), (0, 0, 31));
}

#[test]
fn shedding_stops_at_the_deadline() {
    let mut p = shed_engine();
    push_aged_bulk(&mut p, addr(98), 30);
    p.shed_stale_bulk_rr(true, NOW, || true);
    assert_eq!(p.shed_sojourn(), 0);
    assert_eq!(p.peer_data_queue_len(addr(98)), 1);
}

#[test]
fn shed_waits_longer_than_the_drain() {
    let mut shed = ShedConfig { enabled: true, max_sojourn_ms: 1, max_per_tick: 0 };
    let apd = ApdConfig { max_sojourn_ms: 12, ..ApdConfig::default() };
    shed.sanitize(apd);
    assert!(shed.max_sojourn_ms >= 12);
    assert_eq!(shed.max_per_tick, 1);
    assert!(shed_config_from_network(&NetworkConfig::default()).enabled);
}

#[test]
fn queue_limits_split_the_total() {
    let (control, retransmit) = queue_split_limits(192);
    assert!(control >= 1 && retransmit >= 1);
    let cfg = PacingConfig::default();
    assert!(cfg.max_control_queue_packets >= 1);
    assert!(cfg.max_retransmit_queue_packets >= 1);
}

#[test]
fn round_trip_samples_are_kept_with_their_peer() {
    let mut p = PacingEngine::new();
    let bits = 20.0f32.to_bits();
    p.enqueue_peer_with_rtt(b"a".to_vec(), addr(61), Some(bits), NOW);
    p.enqueue_peer(b"b".to_vec(), addr(62), NOW);
    assert_eq!(p.rtt_samples(), vec![bits]);
    assert_eq!(p.peer_rtts(), vec![Some(bits), None]);
    assert_eq!(p.cc_questions(NOW), vec![(addr(61), 1, 0), (addr(62), 1, 0)]);
}
