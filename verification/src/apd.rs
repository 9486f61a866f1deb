//! The adaptive drain: how many packets a tick of the pacer sends.
//!
//! As the queues fill, the burst of a tick ramps up. When that is not enough,
//! the queues are drained by ticks that follow each other closely, for a short
//! time and with a pause afterwards. Times are microseconds.

use crate::config::NetworkConfig;
use crate::engine_state;
use crate::engine_state::since;
use crate::pacing_defaults;
use crate::pacing_defaults::{
    effective_base_max_burst, effective_pace_tick_us, APD_SOJOURN_MS_MAX, APD_SOJOURN_MS_MIN,
    APD_SOJOURN_TARGET_MAX_GAP_MS, APD_TARGET_SOJOURN_MS_MAX, APD_TARGET_SOJOURN_MS_MIN,
    DEFAULT_APD_CONFIRM_TICKS, DEFAULT_APD_COOLDOWN_MS, DEFAULT_APD_DRAIN_FREEZE_DRR,
    DEFAULT_APD_DRAIN_TICK_US, DEFAULT_APD_ENABLED, DEFAULT_APD_MAX_SOJOURN_MS,
    DEFAULT_APD_REQUIRE_CC_HEADROOM, DEFAULT_APD_SOJOURN_ENABLED, DEFAULT_APD_SPINLOOP_BUDGET_MS,
    DEFAULT_APD_TARGET_SOJOURN_MS, DEFAULT_DRAIN_MAX_BURST, DEFAULT_RAMP_MAX_BURST,
    DEFAULT_SHED_ENABLED, DEFAULT_SHED_MAX_PER_TICK, DEFAULT_SHED_MAX_SOJOURN_MS,
    SHED_MAX_PER_TICK_MAX, SHED_MAX_PER_TICK_MIN, SHED_SOJOURN_MS_MAX, SHED_SOJOURN_MS_MIN,
};
use vstd::prelude::*;

verus! {

/// The largest burst that can be set.
pub const APD_RAMP_BURST_MAX: u64 = 200;

pub const APD_SPINLOOP_BUDGET_MS_MAX: u32 = 100;

pub const APD_CONFIRM_TICKS_MAX: u32 = 10;

pub const APD_COOLDOWN_MS_MAX: u32 = 500;

/// What the drain is doing.
#[derive(Clone, Copy, Debug, PartialEq, Eq, Structural)]
pub enum ApdPhase {
    Cooldown,
    Alert,
    Drain,
}

/// How the drain is set. How full the queues must be is not part of it.
#[derive(Clone, Copy, Debug, PartialEq, Eq, Structural)]
pub struct ApdConfig {
    pub enabled: bool,
    pub ramp_max_burst: u64,
    pub drain_max_burst: u64,
    /// How long a drain takes at most, in milliseconds; zero sets no bound.
    pub spinloop_budget_ms: u32,
    pub drain_tick_us: u64,
    /// For how many ticks the queues are too full before a drain begins; zero
    /// begins it at once.
    pub confirm_ticks: u32,
    pub cooldown_ms: u32,
    pub drain_freeze_drr: bool,
    pub sojourn_enabled: bool,
    pub max_sojourn_ms: u32,
    pub target_sojourn_ms: u32,
    /// Nothing ramps up or drains while congestion control lets nobody send.
    pub require_cc_headroom: bool,
}

impl Default for ApdConfig {
    fn default() -> (out: Self)
        ensures
            out == (ApdConfig {
                enabled: DEFAULT_APD_ENABLED,
                ramp_max_burst: DEFAULT_RAMP_MAX_BURST,
                drain_max_burst: DEFAULT_DRAIN_MAX_BURST,
                spinloop_budget_ms: DEFAULT_APD_SPINLOOP_BUDGET_MS,
                drain_tick_us: DEFAULT_APD_DRAIN_TICK_US,
                confirm_ticks: DEFAULT_APD_CONFIRM_TICKS,
                cooldown_ms: DEFAULT_APD_COOLDOWN_MS,
                drain_freeze_drr: DEFAULT_APD_DRAIN_FREEZE_DRR,
                sojourn_enabled: DEFAULT_APD_SOJOURN_ENABLED,
                max_sojourn_ms: DEFAULT_APD_MAX_SOJOURN_MS,
                target_sojourn_ms: DEFAULT_APD_TARGET_SOJOURN_MS,
                require_cc_headroom: DEFAULT_APD_REQUIRE_CC_HEADROOM,
            }),
    {
        ApdConfig {
            enabled: DEFAULT_APD_ENABLED,
            ramp_max_burst: DEFAULT_RAMP_MAX_BURST,
            drain_max_burst: DEFAULT_DRAIN_MAX_BURST,
            spinloop_budget_ms: DEFAULT_APD_SPINLOOP_BUDGET_MS,
            drain_tick_us: DEFAULT_APD_DRAIN_TICK_US,
            confirm_ticks: DEFAULT_APD_CONFIRM_TICKS,
            cooldown_ms: DEFAULT_APD_COOLDOWN_MS,
            drain_freeze_drr: DEFAULT_APD_DRAIN_FREEZE_DRR,
            sojourn_enabled: DEFAULT_APD_SOJOURN_ENABLED,
            max_sojourn_ms: DEFAULT_APD_MAX_SOJOURN_MS,
            target_sojourn_ms: DEFAULT_APD_TARGET_SOJOURN_MS,
            require_cc_headroom: DEFAULT_APD_REQUIRE_CC_HEADROOM,
        }
    }
}

/// The larger number.
pub open spec fn larger(a: int, b: int) -> int {
    if a >= b {
        a
    } else {
        b
    }
}

/// Times in the queue that fit together: the time that is aimed at stays below
/// the longest one.
pub open spec fn sojourns_fitted(c: ApdConfig) -> ApdConfig {
    let max = pacing_defaults::clamped(
        c.max_sojourn_ms as int,
        APD_SOJOURN_MS_MIN as int,
        APD_SOJOURN_MS_MAX as int,
    );
    let target = pacing_defaults::clamped(
        c.target_sojourn_ms as int,
        APD_TARGET_SOJOURN_MS_MIN as int,
        APD_TARGET_SOJOURN_MS_MAX as int,
    );
    ApdConfig {
        max_sojourn_ms: max as u32,
        target_sojourn_ms: if target + APD_SOJOURN_TARGET_MAX_GAP_MS > max {
            larger(max - APD_SOJOURN_TARGET_MAX_GAP_MS, APD_TARGET_SOJOURN_MS_MIN as int) as u32
        } else {
            target as u32
        },
        ..c
    }
}

/// The settings within the ranges that a user can choose from.
pub open spec fn user_ranges(c: ApdConfig, base_tick_us: u64, base_burst: u64) -> ApdConfig {
    let ramp = pacing_defaults::clamped(
        c.ramp_max_burst as int,
        larger(base_burst as int, 1),
        APD_RAMP_BURST_MAX as int,
    );
    let s = sojourns_fitted(c);
    ApdConfig {
        ramp_max_burst: ramp as u64,
        drain_max_burst: pacing_defaults::clamped(c.drain_max_burst as int, 1, ramp) as u64,
        spinloop_budget_ms: pacing_defaults::clamped(
            c.spinloop_budget_ms as int,
            0,
            APD_SPINLOOP_BUDGET_MS_MAX as int,
        ) as u32,
        drain_tick_us: pacing_defaults::clamped(
            c.drain_tick_us as int,
            0,
            larger(base_tick_us as int, 1),
        ) as u64,
        confirm_ticks: pacing_defaults::clamped(
            c.confirm_ticks as int,
            0,
            APD_CONFIRM_TICKS_MAX as int,
        ) as u32,
        cooldown_ms: pacing_defaults::clamped(
            c.cooldown_ms as int,
            0,
            APD_COOLDOWN_MS_MAX as int,
        ) as u32,
        ..s
    }
}

/// Settings that the drain can work with.
pub open spec fn sane(c: ApdConfig) -> ApdConfig {
    let ramp = larger(c.ramp_max_burst as int, 1);
    ApdConfig {
        ramp_max_burst: ramp as u64,
        drain_max_burst: pacing_defaults::clamped(c.drain_max_burst as int, 1, ramp) as u64,
        ..sojourns_fitted(c)
    }
}

fn clamp32(v: u32, lo: u32, hi: u32) -> (out: u32)
    requires
        lo <= hi,
    ensures
        out == pacing_defaults::clamped(v as int, lo as int, hi as int),
{
    if v < lo {
        lo
    } else if v > hi {
        hi
    } else {
        v
    }
}

fn clamp64(v: u64, lo: u64, hi: u64) -> (out: u64)
    requires
        lo <= hi,
    ensures
        out == pacing_defaults::clamped(v as int, lo as int, hi as int),
{
    if v < lo {
        lo
    } else if v > hi {
        hi
    } else {
        v
    }
}

fn max64(a: u64, b: u64) -> (out: u64)
    ensures
        out == larger(a as int, b as int),
{
    if a >= b {
        a
    } else {
        b
    }
}

impl ApdConfig {
    fn fit_sojourns(&mut self)
        ensures
            *final(self) == sojourns_fitted(*old(self)),
    {
        self.max_sojourn_ms = clamp32(self.max_sojourn_ms, APD_SOJOURN_MS_MIN, APD_SOJOURN_MS_MAX);
        self.target_sojourn_ms = clamp32(
            self.target_sojourn_ms,
            APD_TARGET_SOJOURN_MS_MIN,
            APD_TARGET_SOJOURN_MS_MAX,
        );
        let gap: u32 = APD_SOJOURN_TARGET_MAX_GAP_MS;
        if self.target_sojourn_ms + gap > self.max_sojourn_ms {
            let room: u32 = self.max_sojourn_ms - gap;
            self.target_sojourn_ms = if room >= APD_TARGET_SOJOURN_MS_MIN {
                room
            } else {
                APD_TARGET_SOJOURN_MS_MIN
            };
        }
    }

    /// Brings the settings into the ranges that a user can choose from.
    pub fn clamp_to_user_ranges(&mut self, base_tick_us: u64, base_burst_per_tick: u64)
        requires
            base_burst_per_tick <= APD_RAMP_BURST_MAX,
        ensures
            *final(self) == user_ranges(*old(self), base_tick_us, base_burst_per_tick),
    {
        let floor: u64 = max64(base_burst_per_tick, 1);
        self.ramp_max_burst = clamp64(self.ramp_max_burst, floor, APD_RAMP_BURST_MAX);
        self.drain_max_burst = clamp64(self.drain_max_burst, 1, self.ramp_max_burst);
        self.spinloop_budget_ms = clamp32(self.spinloop_budget_ms, 0, APD_SPINLOOP_BUDGET_MS_MAX);
        self.drain_tick_us = clamp64(self.drain_tick_us, 0, max64(base_tick_us, 1));
        self.confirm_ticks = clamp32(self.confirm_ticks, 0, APD_CONFIRM_TICKS_MAX);
        self.cooldown_ms = clamp32(self.cooldown_ms, 0, APD_COOLDOWN_MS_MAX);
        self.fit_sojourns();
    }

    /// Makes the settings such that the drain can work with them.
    pub fn sanitize(&mut self)
        ensures
            *final(self) == sane(*old(self)),
    {
        self.ramp_max_burst = max64(self.ramp_max_burst, 1);
        self.drain_max_burst = clamp64(self.drain_max_burst, 1, self.ramp_max_burst);
        self.fit_sojourns();
    }
}

/// The burst that the settings ask for.
pub open spec fn base_burst_of(v: i64) -> int {
    pacing_defaults::clamped(
        if v > 0 {
            v as int
        } else {
            pacing_defaults::DEFAULT_PACE_BURST_PER_TICK as int
        },
        pacing_defaults::PACE_BURST_PER_TICK_MIN as int,
        pacing_defaults::PACE_BURST_PER_TICK_MAX as int,
    )
}

/// The time between ticks that the settings ask for.
pub open spec fn tick_of(v: i64) -> int {
    pacing_defaults::clamped(
        if v > 0 {
            v as int
        } else {
            pacing_defaults::DEFAULT_PACE_TICK_US as int
        },
        1,
        pacing_defaults::PACE_TICK_US_MAX as int,
    )
}

/// What a network's settings say of the drain.
pub open spec fn apd_raw(cfg: NetworkConfig) -> ApdConfig {
    ApdConfig {
        enabled: cfg.apd_enabled,
        ramp_max_burst: cfg.ramp_max_burst,
        drain_max_burst: cfg.drain_max_burst,
        spinloop_budget_ms: cfg.apd_spinloop_budget_ms,
        drain_tick_us: cfg.apd_drain_tick_us,
        confirm_ticks: cfg.apd_confirm_ticks,
        cooldown_ms: cfg.apd_cooldown_ms,
        drain_freeze_drr: cfg.apd_drain_freeze_drr,
        sojourn_enabled: cfg.apd_sojourn_enabled,
        max_sojourn_ms: cfg.apd_max_sojourn_ms,
        target_sojourn_ms: cfg.apd_target_sojourn_ms,
        require_cc_headroom: cfg.apd_require_cc_headroom,
    }
}

/// The drain as a network's settings set it.
pub open spec fn apd_of(cfg: NetworkConfig) -> ApdConfig {
    sane(
        user_ranges(
            apd_raw(cfg),
            tick_of(cfg.pace_tick_us) as u64,
            base_burst_of(cfg.base_max_burst) as u64,
        ),
    )
}

/// The drain as a network's settings set it.
pub fn apd_config_from_network(cfg: &NetworkConfig) -> (out: ApdConfig)
    requires
        base_burst_of(cfg.base_max_burst) <= APD_RAMP_BURST_MAX,
    ensures
        out == apd_of(*cfg),
{
    let tick: u64 = effective_pace_tick_us(cfg.pace_tick_us);
    let base_burst: u64 = effective_base_max_burst(cfg.base_max_burst);
    let mut apd = ApdConfig {
        enabled: cfg.apd_enabled,
        ramp_max_burst: cfg.ramp_max_burst,
        drain_max_burst: cfg.drain_max_burst,
        spinloop_budget_ms: cfg.apd_spinloop_budget_ms,
        drain_tick_us: cfg.apd_drain_tick_us,
        confirm_ticks: cfg.apd_confirm_ticks,
        cooldown_ms: cfg.apd_cooldown_ms,
        drain_freeze_drr: cfg.apd_drain_freeze_drr,
        sojourn_enabled: cfg.apd_sojourn_enabled,
        max_sojourn_ms: cfg.apd_max_sojourn_ms,
        target_sojourn_ms: cfg.apd_target_sojourn_ms,
        require_cc_headroom: cfg.apd_require_cc_headroom,
    };
    apd.clamp_to_user_ranges(tick, base_burst);
    apd.sanitize();
    apd
}

/// How packets that have waited too long are shed. How full the queues must be
/// is not part of it.
#[derive(Clone, Copy, Debug, PartialEq, Eq, Structural)]
pub struct ShedConfig {
    pub enabled: bool,
    pub max_sojourn_ms: u32,
    pub max_per_tick: u32,
}

impl Default for ShedConfig {
    fn default() -> (out: Self)
        ensures
            out == (ShedConfig {
                enabled: DEFAULT_SHED_ENABLED,
                max_sojourn_ms: DEFAULT_SHED_MAX_SOJOURN_MS,
                max_per_tick: DEFAULT_SHED_MAX_PER_TICK,
            }),
    {
        ShedConfig {
            enabled: DEFAULT_SHED_ENABLED,
            max_sojourn_ms: DEFAULT_SHED_MAX_SOJOURN_MS,
            max_per_tick: DEFAULT_SHED_MAX_PER_TICK,
        }
    }
}

/// Settings that shedding can work with: no packet is shed before the drain has
/// had its chance.
pub open spec fn shed_sane(c: ShedConfig, apd: ApdConfig) -> ShedConfig {
    let max = pacing_defaults::clamped(
        c.max_sojourn_ms as int,
        SHED_SOJOURN_MS_MIN as int,
        SHED_SOJOURN_MS_MAX as int,
    );
    ShedConfig {
        max_sojourn_ms: if c.enabled && apd.enabled && apd.sojourn_enabled {
            larger(max, apd.max_sojourn_ms as int) as u32
        } else {
            max as u32
        },
        max_per_tick: pacing_defaults::clamped(
            c.max_per_tick as int,
            SHED_MAX_PER_TICK_MIN as int,
            SHED_MAX_PER_TICK_MAX as int,
        ) as u32,
        ..c
    }
}

impl ShedConfig {
    pub fn sanitize(&mut self, apd_cfg: ApdConfig)
        ensures
            *final(self) == shed_sane(*old(self), apd_cfg),
    {
        self.max_sojourn_ms = clamp32(
            self.max_sojourn_ms,
            SHED_SOJOURN_MS_MIN,
            SHED_SOJOURN_MS_MAX,
        );
        self.max_per_tick = clamp32(
            self.max_per_tick,
            SHED_MAX_PER_TICK_MIN,
            SHED_MAX_PER_TICK_MAX,
        );
        if self.enabled && apd_cfg.enabled && apd_cfg.sojourn_enabled && self.max_sojourn_ms
            < apd_cfg.max_sojourn_ms {
            self.max_sojourn_ms = apd_cfg.max_sojourn_ms;
        }
    }
}

/// Shedding as a network's settings set it.
pub fn shed_config_from_network(cfg: &NetworkConfig) -> (out: ShedConfig)
    requires
        base_burst_of(cfg.base_max_burst) <= APD_RAMP_BURST_MAX,
    ensures
        out == shed_sane(
            ShedConfig {
                enabled: cfg.shed_enabled,
                max_sojourn_ms: cfg.shed_max_sojourn_ms,
                max_per_tick: cfg.shed_max_per_tick,
            },
            apd_of(*cfg),
        ),
{
    let mut shed = ShedConfig {
        enabled: cfg.shed_enabled,
        max_sojourn_ms: cfg.shed_max_sojourn_ms,
        max_per_tick: cfg.shed_max_per_tick,
    };
    shed.sanitize(apd_config_from_network(cfg));
    shed
}

/// How many packets a tick sends, and whether it goes round the destinations
/// without counting bytes.
#[derive(Clone, Copy, Debug, PartialEq, Eq, Structural)]
pub struct ApdDecision {
    pub effective_burst: u64,
    pub freeze_drr: bool,
}

/// What the drain remembers.
#[derive(Clone, Copy, Debug, PartialEq, Eq, Structural)]
pub struct ApdState {
    pub phase: ApdPhase,
    pub confirm_counter: u32,
    pub drain_entered_at: Option<u64>,
    pub cooldown_until: Option<u64>,
    pub cfg: ApdConfig,
    pub drain_episodes: u64,
    pub drain_ms_total: u64,
    pub packets_drained: u64,
    pub drain_budget_hits: u64,
    /// The clock is to spin.
    pub last_pure_spin: bool,
    /// The time between ticks that the clock is to keep; zero keeps it as it is.
    pub last_tick_us: u64,
    pub ramp_burst: u64,
    pub last_effective_burst: u64,
    pub ramp_active_ticks: u64,
    pub ramp_pinned_ticks: u64,
    pub drain_arm_fill: u64,
    pub drain_arm_sojourn: u64,
    pub last_max_sojourn_ms: u64,
    pub cc_headroom_suppressions: u64,
}

/// What is known at a tick.
#[derive(Clone, Copy)]
pub struct ApdInput {
    pub base_burst: u64,
    /// The queues are fuller than the high mark.
    pub above_high: bool,
    /// The queues are less full than the low mark.
    pub below_low: bool,
    /// The queues are fuller than at the tick before.
    pub rising: bool,
    /// The burst that fits the queues as they are.
    pub ramp_target: u64,
    /// How long the packet that has waited longest has waited.
    pub hol_sojourn: u64,
    /// Congestion control lets some destination send.
    pub cc_sendable: bool,
    pub now: u64,
}

/// A counter counts one more, up to its largest number.
pub open spec fn bumped(n: u64) -> u64 {
    if n == u64::MAX {
        n
    } else {
        (n + 1) as u64
    }
}

/// The largest burst of the ramp.
pub open spec fn ceiling(st: ApdState, i: ApdInput) -> u64 {
    larger(st.cfg.ramp_max_burst as int, i.base_burst as int) as u64
}

/// The burst while the queues are drained.
pub open spec fn drain_burst(st: ApdState, i: ApdInput) -> u64 {
    pacing_defaults::clamped(st.cfg.drain_max_burst as int, 1, ceiling(st, i) as int) as u64
}

/// Congestion control lets nobody send, so nothing ramps up.
pub open spec fn suppressed(st: ApdState, i: ApdInput) -> bool {
    st.cfg.require_cc_headroom && !i.cc_sendable
}

/// A number less by one, down to `floor`.
pub open spec fn eased(n: u64, floor: u64) -> u64 {
    larger(
        if n == 0 {
            0
        } else {
            n - 1
        },
        floor as int,
    ) as u64
}

/// The burst of the ramp: it follows rising queues at once, and goes down one by
/// one.
pub open spec fn ramped(st: ApdState, i: ApdInput) -> ApdState {
    let start = if st.ramp_burst == 0 {
        i.base_burst
    } else {
        st.ramp_burst
    };
    if suppressed(st, i) {
        ApdState {
            ramp_burst: eased(start, i.base_burst),
            cc_headroom_suppressions: bumped(st.cc_headroom_suppressions),
            ..st
        }
    } else {
        let burst = if i.rising {
            i.ramp_target
        } else {
            eased(start, i.ramp_target)
        };
        ApdState {
            ramp_burst: burst,
            ramp_active_ticks: if burst > i.base_burst {
                bumped(st.ramp_active_ticks)
            } else {
                st.ramp_active_ticks
            },
            ramp_pinned_ticks: if burst >= ceiling(st, i) {
                bumped(st.ramp_pinned_ticks)
            } else {
                st.ramp_pinned_ticks
            },
            ..st
        }
    }
}

/// A tick that does not drain sends the burst of the ramp.
pub open spec fn paced(st: ApdState, i: ApdInput) -> (ApdState, ApdDecision) {
    let burst = larger(st.ramp_burst as int, i.base_burst as int) as u64;
    (
        ApdState { last_pure_spin: false, last_tick_us: 0, last_effective_burst: burst, ..st },
        ApdDecision { effective_burst: burst, freeze_drr: false },
    )
}

/// A tick that drains.
pub open spec fn draining(st: ApdState, i: ApdInput) -> (ApdState, ApdDecision) {
    (
        ApdState {
            last_pure_spin: true,
            last_tick_us: st.cfg.drain_tick_us,
            last_effective_burst: drain_burst(st, i),
            ..st
        },
        ApdDecision {
            effective_burst: drain_burst(st, i),
            freeze_drr: st.cfg.drain_freeze_drr,
        },
    )
}

/// The drain ends, and a pause begins.
pub open spec fn ended(st: ApdState, i: ApdInput, budget_hit: bool) -> (ApdState, ApdDecision) {
    let ms = match st.drain_entered_at {
        Some(t) => engine_state::elapsed(i.now, t) / 1000,
        None => 0,
    };
    let total = st.drain_ms_total + ms;
    paced(
        ApdState {
            phase: ApdPhase::Cooldown,
            drain_budget_hits: if budget_hit {
                bumped(st.drain_budget_hits)
            } else {
                st.drain_budget_hits
            },
            drain_ms_total: if total > u64::MAX {
                u64::MAX
            } else {
                total as u64
            },
            cooldown_until: Some((i.now + 1000 * st.cfg.cooldown_ms) as u64),
            drain_entered_at: None,
            confirm_counter: 0,
            ..st
        },
        i,
    )
}

/// The queues are too full for the ramp.
pub open spec fn fill_arms(st: ApdState, i: ApdInput) -> bool {
    st.ramp_burst >= ceiling(st, i) && i.above_high
}

/// Packets have waited too long.
pub open spec fn sojourn_arms(st: ApdState, i: ApdInput) -> bool {
    st.cfg.sojourn_enabled && i.hol_sojourn > 1000 * st.cfg.max_sojourn_ms
}

/// The alert: a drain begins once the queues were too full, or packets waited
/// too long, for enough ticks.
pub open spec fn alerted(st: ApdState, i: ApdInput) -> (ApdState, ApdDecision) {
    let armed = (fill_arms(st, i) || sojourn_arms(st, i)) && !suppressed(st, i);
    let count = if st.confirm_counter == u32::MAX {
        u32::MAX
    } else {
        (st.confirm_counter + 1) as u32
    };
    if armed && (st.cfg.confirm_ticks == 0 || count >= st.cfg.confirm_ticks) {
        draining(
            ApdState {
                phase: ApdPhase::Drain,
                confirm_counter: if st.cfg.confirm_ticks == 0 {
                    st.confirm_counter
                } else {
                    count
                },
                drain_arm_sojourn: if sojourn_arms(st, i) {
                    bumped(st.drain_arm_sojourn)
                } else {
                    st.drain_arm_sojourn
                },
                drain_arm_fill: if sojourn_arms(st, i) {
                    st.drain_arm_fill
                } else {
                    bumped(st.drain_arm_fill)
                },
                drain_entered_at: Some(i.now),
                drain_episodes: bumped(st.drain_episodes),
                ..st
            },
            i,
        )
    } else if armed {
        paced(ApdState { confirm_counter: count, ..st }, i)
    } else if st.cfg.confirm_ticks > 0 {
        paced(
            ApdState {
                confirm_counter: if st.confirm_counter == 0 {
                    0
                } else {
                    (st.confirm_counter - 1) as u32
                },
                ..st
            },
            i,
        )
    } else {
        paced(st, i)
    }
}

/// The drain has taken as long as it can.
pub open spec fn budget_spent(st: ApdState, i: ApdInput) -> bool {
    st.cfg.spinloop_budget_ms > 0 && (st.drain_entered_at matches Some(t) && engine_state::elapsed(
        i.now,
        t,
    ) >= 1000 * st.cfg.spinloop_budget_ms)
}

/// The queues are empty enough, and packets do not wait long.
pub open spec fn drained(st: ApdState, i: ApdInput) -> bool {
    i.below_low && (!st.cfg.sojourn_enabled || i.hol_sojourn < 1000 * st.cfg.target_sojourn_ms)
}

/// One step of the drain.
pub open spec fn stepped(st: ApdState, i: ApdInput) -> (ApdState, ApdDecision) {
    match st.phase {
        ApdPhase::Cooldown => {
            let over = st.cooldown_until matches Some(t) ==> i.now >= t;
            let st1 = if over {
                ApdState {
                    phase: ApdPhase::Alert,
                    confirm_counter: 0,
                    cooldown_until: None,
                    ..st
                }
            } else {
                st
            };
            paced(ramped(st1, i), i)
        },
        ApdPhase::Alert => alerted(ramped(st, i), i),
        ApdPhase::Drain => if suppressed(st, i) {
            ended(
                ApdState {
                    cc_headroom_suppressions: bumped(st.cc_headroom_suppressions),
                    ..st
                },
                i,
                false,
            )
        } else if budget_spent(st, i) || drained(st, i) {
            ended(st, i, budget_spent(st, i))
        } else {
            draining(st, i)
        },
    }
}

/// A drain that has not begun.
pub open spec fn fresh_apd(cfg: ApdConfig) -> ApdState {
    ApdState {
        phase: ApdPhase::Cooldown,
        confirm_counter: 0,
        drain_entered_at: None,
        cooldown_until: None,
        cfg,
        drain_episodes: 0,
        drain_ms_total: 0,
        packets_drained: 0,
        drain_budget_hits: 0,
        last_pure_spin: false,
        last_tick_us: 0,
        ramp_burst: 0,
        last_effective_burst: 0,
        ramp_active_ticks: 0,
        ramp_pinned_ticks: 0,
        drain_arm_fill: 0,
        drain_arm_sojourn: 0,
        last_max_sojourn_ms: 0,
        cc_headroom_suppressions: 0,
    }
}

impl ApdState {
    pub fn new(cfg: ApdConfig) -> (out: Self)
        ensures
            out == fresh_apd(cfg),
    {
        ApdState {
            phase: ApdPhase::Cooldown,
            confirm_counter: 0,
            drain_entered_at: None,
            cooldown_until: None,
            cfg,
            drain_episodes: 0,
            drain_ms_total: 0,
            packets_drained: 0,
            drain_budget_hits: 0,
            last_pure_spin: false,
            last_tick_us: 0,
            ramp_burst: 0,
            last_effective_burst: 0,
            ramp_active_ticks: 0,
            ramp_pinned_ticks: 0,
            drain_arm_fill: 0,
            drain_arm_sojourn: 0,
            last_max_sojourn_ms: 0,
            cc_headroom_suppressions: 0,
        }
    }

    /// Goes back to the pause, with no time to wait.
    pub fn reset_runtime(&mut self, base_burst: u64)
        ensures
            *final(self) == (ApdState {
                phase: ApdPhase::Cooldown,
                confirm_counter: 0,
                drain_entered_at: None,
                cooldown_until: None,
                ramp_burst: base_burst,
                ..*old(self)
            }),
    {
        self.phase = ApdPhase::Cooldown;
        self.confirm_counter = 0;
        self.drain_entered_at = None;
        self.cooldown_until = None;
        self.ramp_burst = base_burst;
    }

    fn update_ramp(&mut self, i: &ApdInput, ramp_ceiling: u64)
        requires
            ramp_ceiling == ceiling(*old(self), *i),
        ensures
            *final(self) == ramped(*old(self), *i),
    {
        if self.ramp_burst == 0 {
            self.ramp_burst = i.base_burst;
        }
        let less: u64 = self.ramp_burst.saturating_sub(1);
        if self.cfg.require_cc_headroom && !i.cc_sendable {
            self.ramp_burst = max64(less, i.base_burst);
            self.cc_headroom_suppressions = self.cc_headroom_suppressions.saturating_add(1);
            return;
        }
        self.ramp_burst = if i.rising {
            i.ramp_target
        } else {
            max64(less, i.ramp_target)
        };
        if self.ramp_burst > i.base_burst {
            self.ramp_active_ticks = self.ramp_active_ticks.saturating_add(1);
        }
        if self.ramp_burst >= ramp_ceiling {
            self.ramp_pinned_ticks = self.ramp_pinned_ticks.saturating_add(1);
        }
    }

    fn pace(&mut self, i: &ApdInput) -> (out: ApdDecision)
        ensures
            (*final(self), out) == paced(*old(self), *i),
    {
        let burst: u64 = max64(self.ramp_burst, i.base_burst);
        self.last_pure_spin = false;
        self.last_tick_us = 0;
        self.last_effective_burst = burst;
        ApdDecision { effective_burst: burst, freeze_drr: false }
    }

    fn drain(&mut self, burst: u64, i: &ApdInput) -> (out: ApdDecision)
        requires
            burst == drain_burst(*old(self), *i),
        ensures
            (*final(self), out) == draining(*old(self), *i),
    {
        self.last_pure_spin = true;
        self.last_tick_us = self.cfg.drain_tick_us;
        self.last_effective_burst = burst;
        ApdDecision { effective_burst: burst, freeze_drr: self.cfg.drain_freeze_drr }
    }

    fn exit_drain(&mut self, i: &ApdInput, budget_hit: bool) -> (out: ApdDecision)
        requires
            i.now + 1000 * old(self).cfg.cooldown_ms <= u64::MAX,
        ensures
            (*final(self), out) == ended(*old(self), *i, budget_hit),
    {
        if budget_hit {
            self.drain_budget_hits = self.drain_budget_hits.saturating_add(1);
        }
        if let Some(entered) = self.drain_entered_at {
            let ms: u64 = since(i.now, entered) / 1000;
            self.drain_ms_total = self.drain_ms_total.saturating_add(ms);
        }
        self.phase = ApdPhase::Cooldown;
        self.cooldown_until = Some(i.now + 1000 * self.cfg.cooldown_ms as u64);
        self.drain_entered_at = None;
        self.confirm_counter = 0;
        self.pace(i)
    }

    /// One step of the drain: decides how many packets this tick sends.
    pub fn apd_step(&mut self, i: &ApdInput) -> (out: ApdDecision)
        requires
            old(self).cfg.ramp_max_burst >= 1 || i.base_burst >= 1,
            i.now + 1000 * old(self).cfg.cooldown_ms <= u64::MAX,
        ensures
            (*final(self), out) == stepped(*old(self), *i),
    {
        let ramp_ceiling: u64 = max64(self.cfg.ramp_max_burst, i.base_burst);
        let suppress: bool = self.cfg.require_cc_headroom && !i.cc_sendable;
        match self.phase {
            ApdPhase::Cooldown => {
                let over: bool = match self.cooldown_until {
                    Some(t) => i.now >= t,
                    None => true,
                };
                if over {
                    self.phase = ApdPhase::Alert;
                    self.confirm_counter = 0;
                    self.cooldown_until = None;
                }
                self.update_ramp(i, ramp_ceiling);
                self.pace(i)
            },
            ApdPhase::Alert => {
                self.update_ramp(i, ramp_ceiling);
                let fill_arm: bool = self.ramp_burst >= ramp_ceiling && i.above_high;
                let sojourn_arm: bool = self.cfg.sojourn_enabled && i.hol_sojourn > 1000
                    * self.cfg.max_sojourn_ms as u64;
                if (fill_arm || sojourn_arm) && !suppress {
                    let enter: bool = if self.cfg.confirm_ticks == 0 {
                        true
                    } else {
                        self.confirm_counter = self.confirm_counter.saturating_add(1);
                        self.confirm_counter >= self.cfg.confirm_ticks
                    };
                    if enter {
                        if sojourn_arm {
                            self.drain_arm_sojourn = self.drain_arm_sojourn.saturating_add(1);
                        } else {
                            self.drain_arm_fill = self.drain_arm_fill.saturating_add(1);
                        }
                        self.phase = ApdPhase::Drain;
                        self.drain_entered_at = Some(i.now);
                        self.drain_episodes = self.drain_episodes.saturating_add(1);
                        return self.drain(
                            clamp_burst(self.cfg.drain_max_burst, ramp_ceiling),
                            i,
                        );
                    }
                } else if self.cfg.confirm_ticks > 0 {
                    self.confirm_counter = self.confirm_counter.saturating_sub(1);
                }
                self.pace(i)
            },
            ApdPhase::Drain => {
                if suppress {
                    self.cc_headroom_suppressions = self.cc_headroom_suppressions.saturating_add(1);
                    return self.exit_drain(i, false);
                }
                let spent: bool = self.cfg.spinloop_budget_ms > 0 && match self.drain_entered_at {
                    Some(t) => since(i.now, t) >= 1000 * self.cfg.spinloop_budget_ms as u64,
                    None => false,
                };
                let quick: bool = !self.cfg.sojourn_enabled || i.hol_sojourn < 1000
                    * self.cfg.target_sojourn_ms as u64;
                if spent || (i.below_low && quick) {
                    return self.exit_drain(i, spent);
                }
                self.drain(clamp_burst(self.cfg.drain_max_burst, ramp_ceiling), i)
            },
        }
    }
}

/// The burst while the queues are drained.
fn clamp_burst(v: u64, top: u64) -> (out: u64)
    requires
        top >= 1,
    ensures
        out == pacing_defaults::clamped(v as int, 1, top as int),
{
    if v < 1 {
        1
    } else if v > top {
        top
    } else {
        v
    }
}

/// The clock spins exactly while the queues are drained.
pub proof fn spins_only_while_draining(st: ApdState, i: ApdInput)
    ensures
        stepped(st, i).0.last_pure_spin == (stepped(st, i).0.phase == ApdPhase::Drain),
{
}

/// A tick that does not drain sends at least the base burst, and one that drains
/// sends at least one packet and no more than the ramp could.
pub proof fn burst_bounds(st: ApdState, i: ApdInput)
    requires
        st.cfg.ramp_max_burst >= 1,
    ensures
        ({
            let (st1, d) = stepped(st, i);
            if st1.phase == ApdPhase::Drain {
                1 <= d.effective_burst <= ceiling(st, i)
            } else {
                d.effective_burst >= i.base_burst && !d.freeze_drr
            }
        }),
{
}

/// A drain begins only from the alert, and only where the queues were too full
/// for the largest burst, or packets waited too long, and somebody can send.
pub proof fn drains_for_a_reason(st: ApdState, i: ApdInput)
    requires
        st.phase != ApdPhase::Drain,
        stepped(st, i).0.phase == ApdPhase::Drain,
    ensures
        st.phase == ApdPhase::Alert,
        !suppressed(st, i),
        i.above_high || (st.cfg.sojourn_enabled && i.hol_sojourn > 1000 * st.cfg.max_sojourn_ms),
{
}

/// After a drain has ended, none begins before the pause is over.
pub proof fn pause_is_kept(st: ApdState, i: ApdInput)
    requires
        st.phase == ApdPhase::Cooldown,
        st.cooldown_until is Some,
        i.now < st.cooldown_until->0,
    ensures
        stepped(st, i).0.phase == ApdPhase::Cooldown,
        stepped(st, i).0.cooldown_until == st.cooldown_until,
{
}

/// A drain takes no longer than it can.
pub proof fn drain_time_is_bounded(st: ApdState, i: ApdInput)
    requires
        st.phase == ApdPhase::Drain,
        st.cfg.spinloop_budget_ms > 0,
        st.drain_entered_at is Some,
        engine_state::elapsed(i.now, st.drain_entered_at->0) >= 1000
            * st.cfg.spinloop_budget_ms,
    ensures
        stepped(st, i).0.phase == ApdPhase::Cooldown,
{
}

/// Settings that are sane stay as they are.
pub proof fn sane_is_stable(c: ApdConfig)
    ensures
        sane(sane(c)) == sane(c),
{
}

/// Sane settings aim at a time in the queue that is below the longest one.
pub proof fn sane_target_below_max(c: ApdConfig)
    requires
        c.max_sojourn_ms > APD_SOJOURN_MS_MIN,
    ensures
        sane(c).target_sojourn_ms + APD_SOJOURN_TARGET_MAX_GAP_MS <= sane(c).max_sojourn_ms,
{
}

} // verus!
