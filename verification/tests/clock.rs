use floatnet::addr::{Endpoint, IpAddr};
use floatnet::background_cc::{may_send, CcUpdateCounters, DelayVerdict, SendTerms};
use floatnet::config::NetworkConfig;
use floatnet::outbound_udp::OutboundUdpClock;
use floatnet::pace_clock::{
    clamp_spin_window_us, clamp_tick_us, pace_spin_prompt_values, spin_window_from_config,
    wait_until_deadline, ClockInput, ClockState, ClockWait, PaceClockApply,
};
use floatnet::pacing_defaults::{
    effective_base_max_burst, effective_drr_small_packet_threshold_bytes,
    effective_pace_max_queue_packets, effective_pace_target_bps, effective_pace_target_pps,
    effective_pace_tick_us, effective_reserved_bytes_per_tick, effective_shed_max_per_tick,
    effective_shed_max_sojourn_ms, PaceRateMode, APD_SOJOURN_TARGET_MAX_GAP_MS,
    DEFAULT_APD_CONFIRM_TICKS, DEFAULT_APD_DRAIN_TICK_US, DEFAULT_APD_HIGH_WM,
    DEFAULT_APD_MAX_SOJOURN_MS, DEFAULT_APD_REQUIRE_CC_HEADROOM, DEFAULT_APD_SPINLOOP_BUDGET_MS,
    DEFAULT_APD_TARGET_SOJOURN_MS, DEFAULT_DRAIN_MAX_BURST, DEFAULT_DRR_RTT_SCALE_MAX,
    DEFAULT_DRR_SMALL_PACKET_THRESHOLD_BYTES, DEFAULT_MIN_CONTROL_RESERVED_BYTES_PER_TICK,
    DEFAULT_MIN_RETRANSMIT_RESERVED_BYTES_PER_TICK, DEFAULT_PACE_BUDGET_PACKETS,
    DEFAULT_PACE_BURST_PER_TICK, DEFAULT_PACE_FAB_ENABLED, DEFAULT_PACE_FAB_FALLBACK_TICK_US,
    DEFAULT_PACE_MAX_QUEUE, DEFAULT_PACE_TARGET_PPS, DEFAULT_PACE_TICK_US, DEFAULT_RAMP_MAX_BURST,
    DEFAULT_SHED_ENABLED, DEFAULT_SHED_MAX_PER_TICK, DEFAULT_SHED_MAX_SOJOURN_MS,
    DEFAULT_SHED_MIN_FILL, DEFAULT_TUN_FROM_ADAPTER_QUEUE, DEFAULT_TUN_INJECT_QUEUE,
};
use floatnet::table::Table;

#[test]
fn clamp_tick_us_floor_and_cap() {
    assert_eq!(clamp_tick_us(0), 1);
    assert_eq!(clamp_tick_us(1), 1);
    assert_eq!(clamp_tick_us(2_000_000), 1_000_000);
}

#[test]
fn clamp_spin_window_allows_zero() {
    assert_eq!(clamp_spin_window_us(500, 0), 0);
    assert_eq!(clamp_spin_window_us(500, 600), 500);
    assert_eq!(clamp_spin_window_us(10, 40), 10);
}

#[test]
fn hr_mode_ignores_stored_spin_window() {
    let mut cfg = NetworkConfig::default();
    cfg.pace_clock_mode = "hr".into();
    cfg.pace_spin_window_us = 40;
    cfg.pace_tick_us = 500;
    assert_eq!(spin_window_from_config(&cfg, 500), 0);
}

#[test]
fn spin_mode_keeps_spin_window() {
    let mut cfg = NetworkConfig::default();
    cfg.pace_clock_mode = "spin".into();
    cfg.pace_spin_window_us = 40;
    cfg.pace_tick_us = 500;
    assert_eq!(spin_window_from_config(&cfg, 500), 40);
}

#[test]
fn empty_mode_uses_stored_spin_window() {
    let mut cfg = NetworkConfig::default();
    cfg.pace_clock_mode.clear();
    cfg.pace_spin_window_us = 40;
    cfg.pace_tick_us = 500;
    assert_eq!(spin_window_from_config(&cfg, 500), 40);
}

#[test]
fn default_network_config_applies_spin_window_50() {
    let cfg = NetworkConfig::default();
    assert_eq!(cfg.pace_spin_window_us, 50);
    assert_eq!(cfg.pace_clock_mode, "hybrid");
    assert_eq!(spin_window_from_config(&cfg, 250), 50);
}

#[test]
fn pace_spin_prompt_surfaces_stored_value_in_hr_mode() {
    let mut cfg = NetworkConfig::default();
    cfg.pace_clock_mode = "hr".into();
    cfg.pace_spin_window_us = 100;
    cfg.pace_tick_us = 500;
    assert_eq!(spin_window_from_config(&cfg, 500), 0);
    let (cur, def) = pace_spin_prompt_values(&cfg, 500);
    assert_eq!(cur, 100);
    assert_eq!(def, 100);
}

#[test]
fn waits_end_at_the_deadline() {
    assert_eq!(wait_until_deadline(100, 10, 100), ClockWait::Due);
    assert_eq!(wait_until_deadline(100, 10, 95), ClockWait::Spin { until: 100 });
    assert_eq!(wait_until_deadline(100, 0, 50), ClockWait::Sleep { until: 100 });
    assert_eq!(
        wait_until_deadline(100, 10, 50),
        ClockWait::SleepThenSpin { sleep_until: 90, until: 100 }
    );
}

#[test]
fn ticks_follow_each_other() {
    let mut st = ClockState { next_deadline: 1_000, overshoot_streak: 0 };
    let plan = st.plan_tick(&ClockInput {
        tick_us: 300,
        apply: PaceClockApply::from_network_config(&NetworkConfig::default()),
        apd_pure_spin: false,
        apd_tick_us: 0,
        now: 1_000,
    });
    assert!(!plan.overshot);
    assert_eq!(st.next_deadline, 1_300);
}

#[test]
fn factory_pace_apd_defaults_match_low_latency_profile() {
    assert_eq!(DEFAULT_PACE_TICK_US, 300);
    assert_eq!(DEFAULT_PACE_TARGET_PPS, 8_000);
    assert_eq!(DEFAULT_PACE_BURST_PER_TICK, 2);
    assert_eq!(DEFAULT_PACE_BUDGET_PACKETS as f64, 32.0);
    assert_eq!(DEFAULT_PACE_MAX_QUEUE, 192);
    assert_eq!(DEFAULT_TUN_INJECT_QUEUE, 512);
    assert_eq!(DEFAULT_TUN_FROM_ADAPTER_QUEUE, 256);
    assert_eq!(DEFAULT_PACE_FAB_ENABLED, true);
    assert_eq!(DEFAULT_PACE_FAB_FALLBACK_TICK_US, 500);
    assert_eq!(DEFAULT_APD_HIGH_WM as f32 / 100.0, 0.40);
    assert_eq!(DEFAULT_APD_CONFIRM_TICKS, 4);
    assert_eq!(DEFAULT_APD_DRAIN_TICK_US, 100);
    assert_eq!(DEFAULT_APD_SPINLOOP_BUDGET_MS, 3);
    assert_eq!(DEFAULT_RAMP_MAX_BURST, 6);
    assert_eq!(DEFAULT_DRAIN_MAX_BURST, 3);
    assert_eq!(DEFAULT_APD_MAX_SOJOURN_MS, 10);
    assert_eq!(DEFAULT_APD_TARGET_SOJOURN_MS, 2);
    assert!(DEFAULT_APD_REQUIRE_CC_HEADROOM);
    assert!(DEFAULT_SHED_ENABLED);
    assert_eq!(DEFAULT_SHED_MAX_SOJOURN_MS, 30);
    assert!((DEFAULT_SHED_MIN_FILL as f32 / 100.0 - 0.3).abs() < f32::EPSILON);
    assert_eq!(DEFAULT_SHED_MAX_PER_TICK, 1);
    assert_eq!(DEFAULT_DRR_SMALL_PACKET_THRESHOLD_BYTES, 384);
    assert_eq!(DEFAULT_MIN_CONTROL_RESERVED_BYTES_PER_TICK, 256);
    assert_eq!(DEFAULT_MIN_RETRANSMIT_RESERVED_BYTES_PER_TICK, 256);
    assert_eq!(DEFAULT_DRR_RTT_SCALE_MAX as f64 / 100.0, 2.5);
    // The usual burst is below the highest one.
    assert!(DEFAULT_PACE_BURST_PER_TICK < DEFAULT_RAMP_MAX_BURST as i64);
    // The sojourn aimed at is below the largest by more than the gap.
    assert!(
        DEFAULT_APD_TARGET_SOJOURN_MS + APD_SOJOURN_TARGET_MAX_GAP_MS < DEFAULT_APD_MAX_SOJOURN_MS
    );
}

#[test]
fn settings_are_brought_into_range() {
    assert_eq!(effective_pace_tick_us(0), 300);
    assert_eq!(effective_pace_tick_us(2_000_000), 1_000_000);
    assert_eq!(effective_pace_target_pps(5), 100);
    assert_eq!(effective_pace_target_bps(0, 1_000), 1_300_000);
    assert_eq!(effective_base_max_burst(5_000), 1_024);
    assert_eq!(effective_pace_max_queue_packets(10_000), 8_192);
    assert_eq!(effective_reserved_bytes_per_tick(10_000), 8_192);
    assert_eq!(effective_drr_small_packet_threshold_bytes(1), 64);
    assert_eq!(effective_shed_max_sojourn_ms(1), 2);
    assert_eq!(effective_shed_max_per_tick(100), 64);
    assert!(matches!(PaceRateMode::from_config_str("bytes"), PaceRateMode::Bytes));
    assert!(matches!(PaceRateMode::from_config_str("x"), PaceRateMode::Pps));
}

fn ep(port: u16) -> Endpoint {
    Endpoint { ip: IpAddr::V4(0x7F00_0001), port }
}

#[test]
fn note_suppresses_refresh_within_window() {
    let mut clock = OutboundUdpClock::new();
    let dest = ep(9);
    let now = 1_000;
    assert!(clock.needs_refresh(dest, now, 5_000));
    clock.note(dest, now);
    assert!(!clock.needs_refresh(dest, now, 5_000));
    assert_eq!(clock.note_total(), 1);
    assert!(clock.needs_refresh(dest, now + 5_000, 5_000));
}

#[test]
fn clear_and_retain() {
    let mut clock = OutboundUdpClock::default();
    let a = ep(1);
    let b = ep(2);
    clock.note(a, 5);
    clock.note(b, 5);
    let mut keep: Table<Endpoint, ()> = Table::new();
    keep.insert(a, ());
    clock.retain_only(&keep);
    assert!(clock.last(a).is_some());
    assert!(clock.last(b).is_none());
    clock.clear();
    assert!(clock.last(a).is_none());
    clock.note(b, 5);
    clock.remove(b);
    assert!(clock.last(b).is_none());
}

#[test]
fn rate_changes_are_counted() {
    let mut c = CcUpdateCounters::default();
    c.count(true, DelayVerdict::Low);
    c.count(false, DelayVerdict::High);
    c.count(false, DelayVerdict::Unknown);
    let got = c.take_counters();
    assert_eq!((got.increase_events, got.decrease_events, got.loss_decrease_events), (1, 1, 1));
    assert_eq!(c, CcUpdateCounters::default());
}

#[test]
fn packets_wait_for_tokens() {
    let t = SendTerms {
        known: true,
        waited: false,
        covered: false,
        oversized: false,
        some_tokens: true,
    };
    assert!(!may_send(true, t));
    assert!(may_send(false, t));
    assert!(may_send(true, SendTerms { waited: true, ..t }));
    assert!(may_send(true, SendTerms { covered: true, ..t }));
    assert!(may_send(true, SendTerms { oversized: true, ..t }));
    assert!(!may_send(true, SendTerms { oversized: true, some_tokens: false, ..t }));
    assert!(may_send(true, SendTerms { known: false, ..t }));
}
