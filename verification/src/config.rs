//! What the pacer reads of a network's settings.

use crate::pacing_defaults::{
    DEFAULT_APD_COOLDOWN_MS, DEFAULT_APD_DRAIN_FREEZE_DRR, DEFAULT_APD_ENABLED,
    DEFAULT_APD_REQUIRE_CC_HEADROOM, DEFAULT_APD_SOJOURN_ENABLED, DEFAULT_APD_TARGET_SOJOURN_MS,
    DEFAULT_PACE_BURST_PER_TICK, DEFAULT_PACE_FAB_ENABLED, DEFAULT_PACE_FAB_FALLBACK_TICK_US,
    DEFAULT_PACE_SPIN_WINDOW_US, DEFAULT_PACE_TICK_US, DEFAULT_SHED_ENABLED,
    DEFAULT_SHED_MAX_PER_TICK, DEFAULT_SHED_MAX_SOJOURN_MS,
};
use vstd::prelude::*;
use vstd::string::*;

verus! {

/// The largest burst of the ramp, unless a network says otherwise.
pub const NETWORK_RAMP_MAX_BURST: u64 = 8;

/// The burst of a drain, unless a network says otherwise.
pub const NETWORK_DRAIN_MAX_BURST: u64 = 2;

/// How long a drain takes at most, unless a network says otherwise.
pub const NETWORK_APD_SPINLOOP_BUDGET_MS: u32 = 4;

/// The time between the ticks of a drain, unless a network says otherwise.
pub const NETWORK_APD_DRAIN_TICK_US: u64 = 50;

/// After how many ticks in a row a drain begins, unless a network says otherwise.
pub const NETWORK_APD_CONFIRM_TICKS: u32 = 2;

/// How long a packet waits before a drain begins, unless a network says
/// otherwise.
pub const NETWORK_APD_MAX_SOJOURN_MS: u32 = 6;

/// The settings that the pacer reads.
pub struct NetworkConfig {
    pub pace_tick_us: i64,
    pub pace_clock_mode: String,
    pub pace_spin_window_us: i64,
    pub pace_fab_enabled: bool,
    pub pace_fab_fallback_tick_us: i64,
    pub base_max_burst: i64,
    pub apd_enabled: bool,
    pub ramp_max_burst: u64,
    pub drain_max_burst: u64,
    pub apd_spinloop_budget_ms: u32,
    pub apd_drain_tick_us: u64,
    pub apd_confirm_ticks: u32,
    pub apd_cooldown_ms: u32,
    pub apd_drain_freeze_drr: bool,
    pub apd_sojourn_enabled: bool,
    pub apd_max_sojourn_ms: u32,
    pub apd_target_sojourn_ms: u32,
    pub apd_require_cc_headroom: bool,
    pub shed_enabled: bool,
    pub shed_max_sojourn_ms: u32,
    pub shed_max_per_tick: u32,
}

impl Default for NetworkConfig {
    fn default() -> (out: Self)
        ensures
            out.pace_clock_mode@ == "hybrid"@,
            out == (NetworkConfig {
                pace_tick_us: DEFAULT_PACE_TICK_US,
                pace_clock_mode: out.pace_clock_mode,
                pace_spin_window_us: DEFAULT_PACE_SPIN_WINDOW_US,
                pace_fab_enabled: DEFAULT_PACE_FAB_ENABLED,
                pace_fab_fallback_tick_us: DEFAULT_PACE_FAB_FALLBACK_TICK_US,
                base_max_burst: DEFAULT_PACE_BURST_PER_TICK,
                apd_enabled: DEFAULT_APD_ENABLED,
                ramp_max_burst: NETWORK_RAMP_MAX_BURST,
                drain_max_burst: NETWORK_DRAIN_MAX_BURST,
                apd_spinloop_budget_ms: NETWORK_APD_SPINLOOP_BUDGET_MS,
                apd_drain_tick_us: NETWORK_APD_DRAIN_TICK_US,
                apd_confirm_ticks: NETWORK_APD_CONFIRM_TICKS,
                apd_cooldown_ms: DEFAULT_APD_COOLDOWN_MS,
                apd_drain_freeze_drr: DEFAULT_APD_DRAIN_FREEZE_DRR,
                apd_sojourn_enabled: DEFAULT_APD_SOJOURN_ENABLED,
                apd_max_sojourn_ms: NETWORK_APD_MAX_SOJOURN_MS,
                apd_target_sojourn_ms: DEFAULT_APD_TARGET_SOJOURN_MS,
                apd_require_cc_headroom: DEFAULT_APD_REQUIRE_CC_HEADROOM,
                shed_enabled: DEFAULT_SHED_ENABLED,
                shed_max_sojourn_ms: DEFAULT_SHED_MAX_SOJOURN_MS,
                shed_max_per_tick: DEFAULT_SHED_MAX_PER_TICK,
            }),
    {
        NetworkConfig {
            pace_tick_us: DEFAULT_PACE_TICK_US,
            pace_clock_mode: "hybrid".to_owned(),
            pace_spin_window_us: DEFAULT_PACE_SPIN_WINDOW_US,
            pace_fab_enabled: DEFAULT_PACE_FAB_ENABLED,
            pace_fab_fallback_tick_us: DEFAULT_PACE_FAB_FALLBACK_TICK_US,
            base_max_burst: DEFAULT_PACE_BURST_PER_TICK,
            apd_enabled: DEFAULT_APD_ENABLED,
            ramp_max_burst: NETWORK_RAMP_MAX_BURST,
            drain_max_burst: NETWORK_DRAIN_MAX_BURST,
            apd_spinloop_budget_ms: NETWORK_APD_SPINLOOP_BUDGET_MS,
            apd_drain_tick_us: NETWORK_APD_DRAIN_TICK_US,
            apd_confirm_ticks: NETWORK_APD_CONFIRM_TICKS,
            apd_cooldown_ms: DEFAULT_APD_COOLDOWN_MS,
            apd_drain_freeze_drr: DEFAULT_APD_DRAIN_FREEZE_DRR,
            apd_sojourn_enabled: DEFAULT_APD_SOJOURN_ENABLED,
            apd_max_sojourn_ms: NETWORK_APD_MAX_SOJOURN_MS,
            apd_target_sojourn_ms: DEFAULT_APD_TARGET_SOJOURN_MS,
            apd_require_cc_headroom: DEFAULT_APD_REQUIRE_CC_HEADROOM,
            shed_enabled: DEFAULT_SHED_ENABLED,
            shed_max_sojourn_ms: DEFAULT_SHED_MAX_SOJOURN_MS,
            shed_max_per_tick: DEFAULT_SHED_MAX_PER_TICK,
        }
    }
}

} // verus!
