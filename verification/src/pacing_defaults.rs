//! Defaults of the pacer, and the values that stand in for those that are out of
//! range.

use crate::text;
use crate::text::eq_ignore_case;
use vstd::prelude::*;

verus! {

pub const DEFAULT_PACE_TICK_US: i64 = 300;

pub const DEFAULT_PACE_TARGET_PPS: i64 = 8_000;

pub const DEFAULT_PACE_BURST_PER_TICK: i64 = 2;

pub const DEFAULT_PACE_BUDGET_PACKETS: u32 = 32;

pub const DEFAULT_PACE_MAX_QUEUE: i64 = 192;

pub const DEFAULT_PACE_SPIN_WINDOW_US: i64 = 50;

pub const DEFAULT_PACE_FAB_ENABLED: bool = true;

pub const DEFAULT_PACE_FAB_FALLBACK_TICK_US: i64 = 500;

pub const DEFAULT_MAX_TICK_WORK_US: u64 = 150;

pub const PACE_TICK_US_MAX: u64 = 1_000_000;

pub const PACE_TARGET_PPS_MIN: u64 = 100;

pub const PACE_TARGET_PPS_MAX: u64 = 200_000;

pub const PACE_BURST_PER_TICK_MIN: u64 = 1;

pub const PACE_BURST_PER_TICK_MAX: u64 = 1024;

pub const PACE_BUDGET_PACKETS_MIN: u32 = 1;

pub const PACE_BUDGET_PACKETS_MAX: u32 = 4096;

pub const PACE_MAX_QUEUE_MIN: usize = 1;

pub const PACE_MAX_QUEUE_MAX: usize = 8192;

pub const DEFAULT_TUN_INJECT_QUEUE: i64 = 512;

pub const DEFAULT_TUN_FROM_ADAPTER_QUEUE: i64 = 256;

pub const DEFAULT_APD_ENABLED: bool = true;

/// In percent.
pub const DEFAULT_APD_HIGH_WM: u32 = 40;

/// In percent.
pub const DEFAULT_APD_LOW_WM: u32 = 10;

/// How many packets a tick sends at most while the burst ramps up.
pub const DEFAULT_RAMP_MAX_BURST: u64 = 6;

/// How many packets a tick sends at most while the queues are drained.
pub const DEFAULT_DRAIN_MAX_BURST: u64 = 3;

pub const DEFAULT_APD_SPINLOOP_BUDGET_MS: u32 = 3;

pub const DEFAULT_APD_DRAIN_TICK_US: u64 = 100;

pub const DEFAULT_APD_CONFIRM_TICKS: u32 = 4;

pub const DEFAULT_APD_COOLDOWN_MS: u32 = 2;

pub const DEFAULT_APD_DRAIN_FREEZE_DRR: bool = true;

pub const DEFAULT_APD_SOJOURN_ENABLED: bool = true;

pub const DEFAULT_APD_MAX_SOJOURN_MS: u32 = 10;

pub const DEFAULT_APD_TARGET_SOJOURN_MS: u32 = 2;

/// Where congestion control is on, queues are drained only while it lets some
/// destination send.
pub const DEFAULT_APD_REQUIRE_CC_HEADROOM: bool = true;

pub const DEFAULT_SHED_ENABLED: bool = true;

pub const DEFAULT_SHED_MAX_SOJOURN_MS: u32 = 30;

/// In percent.
pub const DEFAULT_SHED_MIN_FILL: u32 = 30;

pub const DEFAULT_SHED_MAX_PER_TICK: u32 = 1;

pub const DEFAULT_MIN_CONTROL_RESERVED_BYTES_PER_TICK: u32 = 256;

pub const DEFAULT_MIN_RETRANSMIT_RESERVED_BYTES_PER_TICK: u32 = 256;

pub const DEFAULT_DRR_SMALL_PACKET_PRIORITY: bool = true;

pub const DEFAULT_DRR_SMALL_PACKET_THRESHOLD_BYTES: u32 = 384;

pub const DEFAULT_DRR_RTT_AWARE: bool = true;

/// In percent.
pub const DEFAULT_DRR_RTT_SCALE_MIN: u32 = 50;

/// In percent.
pub const DEFAULT_DRR_RTT_SCALE_MAX: u32 = 250;

/// In percent.
pub const DRR_RTT_SCALE_MIN_LO: u32 = 10;

/// In percent.
pub const DRR_RTT_SCALE_MIN_HI: u32 = 100;

/// In percent.
pub const DRR_RTT_SCALE_MAX_LO: u32 = 100;

/// In percent.
pub const DRR_RTT_SCALE_MAX_HI: u32 = 400;

pub const DRR_SMALL_PACKET_THRESHOLD_MIN: usize = 64;

pub const DRR_SMALL_PACKET_THRESHOLD_MAX: usize = 512;

/// How many small packets can go in a row while a large one waits.
pub const DRR_SMALL_BULK_FORCE_AFTER: u8 = 8;

/// How long a large packet waits behind small ones at most, in milliseconds.
pub const DRR_BULK_HOL_FORCE_MS: u32 = 8;

pub const PACE_RESERVED_BYTES_PER_TICK_MAX: u32 = 8192;

pub const APD_SOJOURN_MS_MIN: u32 = 2;

pub const APD_SOJOURN_MS_MAX: u32 = 500;

pub const APD_TARGET_SOJOURN_MS_MIN: u32 = 1;

pub const APD_TARGET_SOJOURN_MS_MAX: u32 = 200;

pub const APD_SOJOURN_TARGET_MAX_GAP_MS: u32 = 2;

pub const SHED_SOJOURN_MS_MIN: u32 = 2;

pub const SHED_SOJOURN_MS_MAX: u32 = 500;

/// In percent.
pub const SHED_MIN_FILL_LO: u32 = 10;

/// In percent.
pub const SHED_MIN_FILL_HI: u32 = 95;

pub const SHED_MAX_PER_TICK_MIN: u32 = 1;

pub const SHED_MAX_PER_TICK_MAX: u32 = 64;

/// How many bytes a packet counts when a rate in packets is turned into one in
/// bytes.
pub const PACE_BYTES_PER_PACKET: u64 = 1300;

/// What the pacer counts.
#[derive(Clone, Copy, Debug, PartialEq, Eq, Structural)]
pub enum PaceRateMode {
    Pps,
    Bytes,
}

/// `v`, or the bound that it is beyond.
pub open spec fn clamped(v: int, lo: int, hi: int) -> int {
    if v < lo {
        lo
    } else if v > hi {
        hi
    } else {
        v
    }
}

impl PaceRateMode {
    /// Bytes where the word says so, in whatever case, and packets otherwise.
    pub fn from_config_str(s: &str) -> (out: Self)
        ensures
            out == if text::same_letters(s@, "bytes"@) {
                PaceRateMode::Bytes
            } else {
                PaceRateMode::Pps
            },
    {
        if eq_ignore_case(s, "bytes") {
            PaceRateMode::Bytes
        } else {
            PaceRateMode::Pps
        }
    }
}

pub fn effective_pace_rate_mode(s: &str) -> (out: PaceRateMode)
    ensures
        out == if text::same_letters(s@, "bytes"@) {
            PaceRateMode::Bytes
        } else {
            PaceRateMode::Pps
        },
{
    PaceRateMode::from_config_str(s)
}

/// The time between ticks, in microseconds.
pub fn effective_pace_tick_us(v: i64) -> (out: u64)
    ensures
        out == clamped(if v > 0 {
            v as int
        } else {
            DEFAULT_PACE_TICK_US as int
        }, 1 as int, PACE_TICK_US_MAX as int),
{
    let value: u64 = if v > 0 {
        v as u64
    } else {
        DEFAULT_PACE_TICK_US as u64
    };
    if value < 1 {
        1
    } else if value > PACE_TICK_US_MAX {
        PACE_TICK_US_MAX
    } else {
        value
    }
}

/// The rate in packets per second.
pub fn effective_pace_target_pps(v: i64) -> (out: u64)
    ensures
        out == clamped(if v > 0 {
            v as int
        } else {
            DEFAULT_PACE_TARGET_PPS as int
        }, PACE_TARGET_PPS_MIN as int, PACE_TARGET_PPS_MAX as int),
{
    let value: u64 = if v > 0 {
        v as u64
    } else {
        DEFAULT_PACE_TARGET_PPS as u64
    };
    if value < PACE_TARGET_PPS_MIN {
        PACE_TARGET_PPS_MIN
    } else if value > PACE_TARGET_PPS_MAX {
        PACE_TARGET_PPS_MAX
    } else {
        value
    }
}

/// The rate in bytes per second. Where none is set, it follows the rate in
/// packets.
pub fn effective_pace_target_bps(v: i64, pace_target_pps: i64) -> (out: u64)
    ensures
        out == if v > 0 {
            v as int
        } else {
            clamped(
                if pace_target_pps > 0 {
                    pace_target_pps as int
                } else {
                    DEFAULT_PACE_TARGET_PPS as int
                },
                PACE_TARGET_PPS_MIN as int,
                PACE_TARGET_PPS_MAX as int,
            ) * PACE_BYTES_PER_PACKET
        },
{
    if v > 0 {
        return v as u64;
    }
    effective_pace_target_pps(pace_target_pps) * PACE_BYTES_PER_PACKET
}

/// How many packets a tick sends at most.
pub fn effective_base_max_burst(v: i64) -> (out: u64)
    ensures
        out == clamped(if v > 0 {
            v as int
        } else {
            DEFAULT_PACE_BURST_PER_TICK as int
        }, PACE_BURST_PER_TICK_MIN as int, PACE_BURST_PER_TICK_MAX as int),
{
    let value: u64 = if v > 0 {
        v as u64
    } else {
        DEFAULT_PACE_BURST_PER_TICK as u64
    };
    if value < PACE_BURST_PER_TICK_MIN {
        PACE_BURST_PER_TICK_MIN
    } else if value > PACE_BURST_PER_TICK_MAX {
        PACE_BURST_PER_TICK_MAX
    } else {
        value
    }
}

/// How many packets the queues hold.
pub fn effective_pace_max_queue_packets(v: i64) -> (out: usize)
    ensures
        out == clamped(if v > 0 {
            v as int
        } else {
            DEFAULT_PACE_MAX_QUEUE as int
        }, PACE_MAX_QUEUE_MIN as int, PACE_MAX_QUEUE_MAX as int),
{
    let value: i64 = if v > 0 {
        v
    } else {
        DEFAULT_PACE_MAX_QUEUE
    };
    if value < PACE_MAX_QUEUE_MIN as i64 {
        PACE_MAX_QUEUE_MIN
    } else if value > PACE_MAX_QUEUE_MAX as i64 {
        PACE_MAX_QUEUE_MAX
    } else {
        value as usize
    }
}

/// How many packets wait for the adapter.
pub fn effective_tun_inject_queue_packets(v: i64) -> (out: usize)
    ensures
        out == clamped(if v > 0 {
            v as int
        } else {
            DEFAULT_TUN_INJECT_QUEUE as int
        }, 1 as int, 8192 as int),
{
    let value: i64 = if v > 0 {
        v
    } else {
        DEFAULT_TUN_INJECT_QUEUE
    };
    if value < 1 as i64 {
        1
    } else if value > 8192 as i64 {
        8192
    } else {
        value as usize
    }
}

/// How many packets from the adapter wait.
pub fn effective_tun_from_adapter_queue_packets(v: i64) -> (out: usize)
    ensures
        out == clamped(if v > 0 {
            v as int
        } else {
            DEFAULT_TUN_FROM_ADAPTER_QUEUE as int
        }, 1 as int, 8192 as int),
{
    let value: i64 = if v > 0 {
        v
    } else {
        DEFAULT_TUN_FROM_ADAPTER_QUEUE
    };
    if value < 1 as i64 {
        1
    } else if value > 8192 as i64 {
        8192
    } else {
        value as usize
    }
}

/// How many bytes of a tick are kept for control packets or for packets that are
/// sent again.
pub fn effective_reserved_bytes_per_tick(v: u32) -> (out: usize)
    ensures
        out == clamped(v as int, 0, PACE_RESERVED_BYTES_PER_TICK_MAX as int),
{
    if v > PACE_RESERVED_BYTES_PER_TICK_MAX {
        PACE_RESERVED_BYTES_PER_TICK_MAX as usize
    } else {
        v as usize
    }
}

/// From how many bytes on a packet is not small.
pub fn effective_drr_small_packet_threshold_bytes(v: u32) -> (out: usize)
    ensures
        out == clamped(
            if v == 0 {
                DEFAULT_DRR_SMALL_PACKET_THRESHOLD_BYTES as int
            } else {
                v as int
            },
            DRR_SMALL_PACKET_THRESHOLD_MIN as int,
            DRR_SMALL_PACKET_THRESHOLD_MAX as int,
        ),
{
    let value: usize = if v == 0 {
        DEFAULT_DRR_SMALL_PACKET_THRESHOLD_BYTES as usize
    } else {
        v as usize
    };
    if value < DRR_SMALL_PACKET_THRESHOLD_MIN {
        DRR_SMALL_PACKET_THRESHOLD_MIN
    } else if value > DRR_SMALL_PACKET_THRESHOLD_MAX {
        DRR_SMALL_PACKET_THRESHOLD_MAX
    } else {
        value
    }
}

/// How long a large packet waits before it is shed, in milliseconds.
pub fn effective_shed_max_sojourn_ms(v: u32) -> (out: u32)
    ensures
        out == if v == 0 {
            DEFAULT_SHED_MAX_SOJOURN_MS as int
        } else {
            clamped(v as int, SHED_SOJOURN_MS_MIN as int, SHED_SOJOURN_MS_MAX as int)
        },
{
    if v == 0 {
        DEFAULT_SHED_MAX_SOJOURN_MS
    } else if v < SHED_SOJOURN_MS_MIN {
        SHED_SOJOURN_MS_MIN
    } else if v > SHED_SOJOURN_MS_MAX {
        SHED_SOJOURN_MS_MAX
    } else {
        v
    }
}

/// How many packets a tick sheds at most.
pub fn effective_shed_max_per_tick(v: u32) -> (out: u32)
    ensures
        out == if v == 0 {
            DEFAULT_SHED_MAX_PER_TICK as int
        } else {
            clamped(v as int, SHED_MAX_PER_TICK_MIN as int, SHED_MAX_PER_TICK_MAX as int)
        },
{
    if v == 0 {
        DEFAULT_SHED_MAX_PER_TICK
    } else if v < SHED_MAX_PER_TICK_MIN {
        SHED_MAX_PER_TICK_MIN
    } else if v > SHED_MAX_PER_TICK_MAX {
        SHED_MAX_PER_TICK_MAX
    } else {
        v
    }
}

} // verus!
