//! The clock that ticks for the pacer: when the next tick is due, and how the
//! time until then is spent.
//!
//! Times are microseconds.

use crate::config::NetworkConfig;
use crate::engine_state;
use crate::engine_state::since;
use crate::text;
use crate::text::{eq_ignore_case, trim};
use vstd::prelude::*;

verus! {

pub const MIN_PACE_TICK_US: u64 = 1;

/// The longest time between ticks.
pub const MAX_PACE_TICK_US: u64 = 1_000_000;

/// After how many late ticks the clock slows down.
pub const PACE_CLOCK_ADAPTIVE_THRESHOLD: u32 = 40;

/// How the clock is set.
#[derive(Clone, Copy, Debug, PartialEq, Eq, Structural)]
pub struct PaceClockApply {
    pub spin_window_us: u64,
    pub fab_enabled: bool,
    pub fab_fallback_us: u64,
}

impl Default for PaceClockApply {
    fn default() -> (out: Self)
        ensures
            out == (PaceClockApply {
                spin_window_us: 100,
                fab_enabled: true,
                fab_fallback_us: 750,
            }),
    {
        PaceClockApply { spin_window_us: 100, fab_enabled: true, fab_fallback_us: 750 }
    }
}

/// A time between ticks that is allowed.
pub open spec fn tick_clamped(tick: u64) -> u64 {
    if tick < MIN_PACE_TICK_US {
        MIN_PACE_TICK_US
    } else if tick > MAX_PACE_TICK_US {
        MAX_PACE_TICK_US
    } else {
        tick
    }
}

/// A spin window that is no longer than a tick.
pub open spec fn window_clamped(tick_us: u64, spin: u64) -> u64 {
    let t = if tick_us < MIN_PACE_TICK_US {
        MIN_PACE_TICK_US
    } else {
        tick_us
    };
    if spin < t {
        spin
    } else {
        t
    }
}

/// A setting that must not be negative.
pub open spec fn not_below(v: i64, lo: i64) -> u64 {
    (if v < lo {
        lo
    } else {
        v
    }) as u64
}

/// The spin window that the settings ask for.
pub open spec fn window_of(cfg: NetworkConfig, tick_us: u64) -> u64 {
    if text::same_letters(text::trimmed(cfg.pace_clock_mode@), "hr"@) {
        0
    } else {
        window_clamped(tick_us, not_below(cfg.pace_spin_window_us, 0))
    }
}

pub fn clamp_tick_us(tick: u64) -> (out: u64)
    ensures
        out == tick_clamped(tick),
{
    if tick < MIN_PACE_TICK_US {
        MIN_PACE_TICK_US
    } else if tick > MAX_PACE_TICK_US {
        MAX_PACE_TICK_US
    } else {
        tick
    }
}

pub fn clamp_spin_window_us(tick_us: u64, spin: u64) -> (out: u64)
    ensures
        out == window_clamped(tick_us, spin),
{
    let t: u64 = if tick_us < MIN_PACE_TICK_US {
        MIN_PACE_TICK_US
    } else {
        tick_us
    };
    if spin < t {
        spin
    } else {
        t
    }
}

fn at_least(v: i64, lo: i64) -> (out: u64)
    requires
        lo >= 0,
    ensures
        out == not_below(v, lo),
{
    if v < lo {
        lo as u64
    } else {
        v as u64
    }
}

/// The spin window that the settings ask for: none where the clock is to use
/// high resolution timers alone.
pub fn spin_window_from_config(cfg: &NetworkConfig, tick_us: u64) -> (out: u64)
    ensures
        out == window_of(*cfg, tick_us),
{
    let mode: &str = trim(cfg.pace_clock_mode.as_str());
    if eq_ignore_case(mode, "hr") {
        0
    } else {
        clamp_spin_window_us(tick_us, at_least(cfg.pace_spin_window_us, 0))
    }
}

/// The spin window to show, and the one to offer: a stored window shows even
/// where the clock does not use it.
pub fn pace_spin_prompt_values(cfg: &NetworkConfig, tick_us: u64) -> (out: (u64, u64))
    ensures
        ({
            let stored = window_clamped(tick_us, not_below(cfg.pace_spin_window_us, 0));
            let effective = window_of(*cfg, tick_us);
            out == (
                if effective == 0 && stored > 0 {
                    stored
                } else {
                    effective
                },
                if stored > 0 {
                    stored
                } else {
                    window_clamped(tick_us, 100)
                },
            )
        }),
{
    let stored: u64 = clamp_spin_window_us(tick_us, at_least(cfg.pace_spin_window_us, 0));
    let effective: u64 = spin_window_from_config(cfg, tick_us);
    let current: u64 = if effective == 0 && stored > 0 {
        stored
    } else {
        effective
    };
    let offered: u64 = if stored > 0 {
        stored
    } else {
        clamp_spin_window_us(tick_us, 100)
    };
    (current, offered)
}

impl PaceClockApply {
    pub fn from_network_config(cfg: &NetworkConfig) -> (out: Self)
        ensures
            out == (PaceClockApply {
                spin_window_us: window_of(*cfg, tick_clamped(not_below(cfg.pace_tick_us, 1))),
                fab_enabled: cfg.pace_fab_enabled,
                fab_fallback_us: not_below(cfg.pace_fab_fallback_tick_us, 1),
            }),
    {
        let tick: u64 = clamp_tick_us(at_least(cfg.pace_tick_us, 1));
        PaceClockApply {
            spin_window_us: spin_window_from_config(cfg, tick),
            fab_enabled: cfg.pace_fab_enabled,
            fab_fallback_us: at_least(cfg.pace_fab_fallback_tick_us, 1),
        }
    }
}

/// What the clock thread reads before each tick.
#[derive(Clone, Copy)]
pub struct ClockInput {
    pub tick_us: u64,
    pub apply: PaceClockApply,
    /// The pacer drains its queues: the clock spins.
    pub apd_pure_spin: bool,
    /// The time between ticks while it does; zero keeps the time as it is.
    pub apd_tick_us: u64,
    pub now: u64,
}

/// What the clock thread remembers from tick to tick.
#[derive(Clone, Copy, Debug, PartialEq, Eq, Structural)]
pub struct ClockState {
    pub next_deadline: u64,
    pub overshoot_streak: u32,
}

/// How the time until the next tick is spent.
#[derive(Clone, Copy, Debug, PartialEq, Eq, Structural)]
pub enum ClockWait {
    /// The tick is due.
    Due,
    Spin { until: u64 },
    Sleep { until: u64 },
    SleepThenSpin { sleep_until: u64, until: u64 },
}

/// What the clock does before a tick.
#[derive(Clone, Copy, Debug, PartialEq, Eq, Structural)]
pub struct ClockPlan {
    pub wait: ClockWait,
    /// The clock slowed down for this tick.
    pub fell_back: bool,
    /// The tick comes too late.
    pub overshot: bool,
}

/// The clock slows down for this tick.
pub open spec fn falls_back(st: ClockState, i: ClockInput) -> bool {
    !i.apd_pure_spin && i.apply.fab_enabled && st.overshoot_streak
        >= PACE_CLOCK_ADAPTIVE_THRESHOLD
}

/// The time until the next tick.
pub open spec fn tick_length(st: ClockState, i: ClockInput) -> u64 {
    let base = if i.tick_us < MIN_PACE_TICK_US {
        MIN_PACE_TICK_US
    } else {
        i.tick_us
    };
    if i.apd_pure_spin {
        if i.apd_tick_us > 0 {
            i.apd_tick_us
        } else {
            base
        }
    } else if falls_back(st, i) {
        if i.apply.fab_fallback_us < 1 {
            1
        } else {
            i.apply.fab_fallback_us
        }
    } else {
        base
    }
}

/// How the time until `deadline` is spent, with a spin window at its end.
pub open spec fn wait_for(deadline: u64, window: u64, now: u64) -> ClockWait {
    if now >= deadline {
        ClockWait::Due
    } else if window == 0 {
        ClockWait::Sleep { until: deadline }
    } else if window >= deadline - now {
        ClockWait::Spin { until: deadline }
    } else {
        ClockWait::SleepThenSpin { sleep_until: (deadline - window) as u64, until: deadline }
    }
}

/// How the time until `deadline` is spent: most of it asleep, the end of it
/// spinning.
pub fn wait_until_deadline(deadline: u64, spin_window: u64, now: u64) -> (out: ClockWait)
    ensures
        out == wait_for(deadline, spin_window, now),
{
    if now >= deadline {
        return ClockWait::Due;
    }
    if spin_window == 0 {
        return ClockWait::Sleep { until: deadline };
    }
    if spin_window >= deadline - now {
        return ClockWait::Spin { until: deadline };
    }
    ClockWait::SleepThenSpin { sleep_until: deadline - spin_window, until: deadline }
}

/// The streak of late ticks after one more tick.
pub open spec fn streak_after(streak: u32, late: bool) -> u32 {
    if late {
        if streak == u32::MAX {
            streak
        } else {
            (streak + 1) as u32
        }
    } else if streak == 0 {
        0
    } else {
        (streak - 1) as u32
    }
}

impl ClockState {
    /// Plans the time until the next tick.
    pub fn plan_tick(&mut self, i: &ClockInput) -> (plan: ClockPlan)
        requires
            old(self).next_deadline + tick_length(*old(self), *i) <= u64::MAX,
        ensures
            ({
                let due = (old(self).next_deadline + tick_length(*old(self), *i)) as u64;
                let window = window_clamped(
                    if i.tick_us < MIN_PACE_TICK_US {
                        MIN_PACE_TICK_US
                    } else {
                        i.tick_us
                    },
                    i.apply.spin_window_us,
                );
                let late = due <= i.now && engine_state::elapsed(i.now, due) > window;
                let streak = if falls_back(*old(self), *i) {
                    0
                } else {
                    old(self).overshoot_streak
                };
                &&& final(self).next_deadline == due
                &&& plan.fell_back == falls_back(*old(self), *i)
                &&& if i.apd_pure_spin {
                    &&& plan.wait == ClockWait::Spin { until: due }
                    &&& !plan.overshot
                    &&& final(self).overshoot_streak == 0
                } else {
                    &&& plan.wait == wait_for(due, window, i.now)
                    &&& plan.overshot == late
                    &&& final(self).overshoot_streak == streak_after(streak, late)
                }
            }),
    {
        let base: u64 = if i.tick_us < MIN_PACE_TICK_US {
            MIN_PACE_TICK_US
        } else {
            i.tick_us
        };
        if i.apd_pure_spin {
            let tick: u64 = if i.apd_tick_us > 0 {
                i.apd_tick_us
            } else {
                base
            };
            self.next_deadline = self.next_deadline + tick;
            self.overshoot_streak = 0;
            return ClockPlan {
                wait: ClockWait::Spin { until: self.next_deadline },
                fell_back: false,
                overshot: false,
            };
        }
        let fell_back: bool = i.apply.fab_enabled && self.overshoot_streak
            >= PACE_CLOCK_ADAPTIVE_THRESHOLD;
        let mut tick: u64 = base;
        if fell_back {
            self.overshoot_streak = 0;
            tick = if i.apply.fab_fallback_us < 1 {
                1
            } else {
                i.apply.fab_fallback_us
            };
        }
        self.next_deadline = self.next_deadline + tick;
        let window: u64 = clamp_spin_window_us(base, i.apply.spin_window_us);
        let overshot: bool = self.next_deadline <= i.now && since(i.now, self.next_deadline)
            > window;
        self.overshoot_streak = if overshot {
            self.overshoot_streak.saturating_add(1)
        } else {
            self.overshoot_streak.saturating_sub(1)
        };
        ClockPlan {
            wait: wait_until_deadline(self.next_deadline, window, i.now),
            fell_back,
            overshot,
        }
    }
}

/// The clock never sleeps or spins past the tick, and never sleeps in the spin
/// window before it.
pub proof fn waits_end_at_the_tick(deadline: u64, window: u64, now: u64)
    ensures
        match wait_for(deadline, window, now) {
            ClockWait::Due => now >= deadline,
            ClockWait::Spin { until } => until == deadline && deadline - now <= window,
            ClockWait::Sleep { until } => until == deadline && window == 0,
            ClockWait::SleepThenSpin { sleep_until, until } => until == deadline && now
                < sleep_until && sleep_until + window == deadline,
        },
{
}

} // verus!
