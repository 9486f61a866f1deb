//! How much parity a packet flow gets, and which packets are coded at all.
//!
//! A ratio `(d, p)` stands for `p` parity shards to `d` data shards; without
//! either of them the code is off.

use crate::engine_state;
use crate::engine_state::since;
use vstd::prelude::*;

verus! {

/// How many bytes a shard holds at most.
pub const FEC_SHARD_PAYLOAD_SIZE: usize = 1279;

/// How many bytes a shard holds at least.
pub const FEC_SHARD_PAYLOAD_MIN: usize = 512;

/// How many bytes of a shard tell its packet's length.
pub const FEC_SHARD_LEN_PREFIX: usize = 2;

/// How many shards a group has at most.
pub const FEC_MAX_TOTAL_SHARDS: usize = 64;

/// How many bytes stand before the shard in a frame.
pub const FEC_COMPACT_HEADER_LEN: usize = 10;

/// How many bytes the headers of IPv4 and UDP take.
pub const UNDERLAY_IPV4_UDP_OVERHEAD: usize = 28;

/// How long congestion counts as recent when nothing else is configured, in
/// milliseconds.
pub const FEC_RECOVERY_RECENCY: u64 = 1_200;

/// The size of shards on a path that carries packets of `min_path_mtu` bytes,
/// if there is one.
pub open spec fn effective_size(configured: usize, min_path_mtu: usize) -> Option<usize> {
    let room = if min_path_mtu < UNDERLAY_IPV4_UDP_OVERHEAD + FEC_COMPACT_HEADER_LEN {
        0
    } else {
        min_path_mtu - (UNDERLAY_IPV4_UDP_OVERHEAD + FEC_COMPACT_HEADER_LEN)
    };
    let a = if configured <= room { configured as int } else { room };
    let e = if a <= FEC_SHARD_PAYLOAD_SIZE { a } else { FEC_SHARD_PAYLOAD_SIZE as int };
    if e >= FEC_SHARD_PAYLOAD_MIN {
        Some(e as usize)
    } else {
        None
    }
}

/// The size of shards on a path that carries packets of `min_path_mtu` bytes.
pub fn effective_shard_payload_size(configured: usize, min_path_mtu: usize) -> (out: Option<usize>)
    ensures
        out == effective_size(configured, min_path_mtu),
        out matches Some(e) ==> e + FEC_COMPACT_HEADER_LEN + UNDERLAY_IPV4_UDP_OVERHEAD
            <= min_path_mtu,
{
    let overhead: usize = UNDERLAY_IPV4_UDP_OVERHEAD + FEC_COMPACT_HEADER_LEN;
    let room: usize = if min_path_mtu < overhead {
        0
    } else {
        min_path_mtu - overhead
    };
    let mut e: usize = if configured <= room {
        configured
    } else {
        room
    };
    if e > FEC_SHARD_PAYLOAD_SIZE {
        e = FEC_SHARD_PAYLOAD_SIZE;
    }
    if e >= FEC_SHARD_PAYLOAD_MIN {
        Some(e)
    } else {
        None
    }
}

/// The ratio turns the code on.
pub open spec fn on(r: (u8, u8)) -> bool {
    r.0 > 0 && r.1 > 0
}

/// Of the shards of `a` a smaller part is parity than of those of `b`.
pub open spec fn lighter(a: (u8, u8), b: (u8, u8)) -> bool {
    a.1 * (b.0 + b.1) < b.1 * (a.0 + a.1)
}

/// `proposed` turns the code on, or asks for more parity than `prev`.
pub open spec fn raises(prev: Option<(u8, u8)>, proposed: (u8, u8)) -> bool {
    on(proposed) && match prev {
        None => true,
        Some(p) => !on(p) || lighter(p, proposed) || (!lighter(proposed, p) && proposed.1 > p.1),
    }
}

/// `a` asks for less parity than `b`, or is off where `b` is on.
pub open spec fn lowers(a: (u8, u8), b: (u8, u8)) -> bool {
    if !on(a) {
        on(b)
    } else {
        on(b) && (lighter(a, b) || (!lighter(b, a) && a.1 < b.1))
    }
}

/// The next lower ratio of `(4, 2)`, `(5, 1)`, `(7, 1)`, `(10, 1)` and off.
pub open spec fn stepped_down(prev: (u8, u8)) -> (u8, u8) {
    if !on(prev) {
        (0, 0)
    } else if prev == (4u8, 2u8) {
        (5, 1)
    } else if prev == (5u8, 1u8) {
        (7, 1)
    } else if prev == (7u8, 1u8) {
        (10, 1)
    } else if prev == (10u8, 1u8) {
        (0, 0)
    } else if lighter((4, 2), prev) {
        (4, 2)
    } else if lighter((5, 1), prev) {
        (5, 1)
    } else if lighter((7, 1), prev) {
        (7, 1)
    } else if lighter((10, 1), prev) {
        (10, 1)
    } else {
        (0, 0)
    }
}

fn is_lighter(a: (u8, u8), b: (u8, u8)) -> (out: bool)
    ensures
        out == lighter(a, b),
{
    let bt: u32 = b.0 as u32 + b.1 as u32;
    let at: u32 = a.0 as u32 + a.1 as u32;
    proof {
        assert(a.1 * bt <= 255 * 510 && b.1 * at <= 255 * 510) by (nonlinear_arith)
            requires
                a.1 <= 255,
                b.1 <= 255,
                bt <= 510,
                at <= 510,
        ;
    }
    a.1 as u32 * bt < b.1 as u32 * at
}

/// Whether `proposed` turns the code on or asks for more parity than `prev`.
pub fn fec_ratio_would_increase_parity(prev: Option<(u8, u8)>, proposed: (u8, u8)) -> (out: bool)
    ensures
        out == raises(prev, proposed),
{
    if proposed.0 == 0 || proposed.1 == 0 {
        return false;
    }
    match prev {
        None => true,
        Some(p) => {
            if p.0 == 0 || p.1 == 0 {
                return true;
            }
            is_lighter(p, proposed) || (!is_lighter(proposed, p) && proposed.1 > p.1)
        },
    }
}

/// Whether `a` asks for less parity than `b`.
pub fn fec_ratio_is_strictly_lower(a: (u8, u8), b: (u8, u8)) -> (out: bool)
    ensures
        out == lowers(a, b),
{
    let b_on: bool = b.0 > 0 && b.1 > 0;
    if a.0 == 0 || a.1 == 0 {
        return b_on;
    }
    if !b_on {
        return false;
    }
    is_lighter(a, b) || (!is_lighter(b, a) && a.1 < b.1)
}

/// One step down towards off.
pub fn fec_ratio_step_down(prev: (u8, u8)) -> (out: (u8, u8))
    ensures
        out == stepped_down(prev),
{
    if prev.0 == 0 || prev.1 == 0 {
        return (0, 0);
    }
    let ladder: [(u8, u8); 4] = [(4, 2), (5, 1), (7, 1), (10, 1)];
    let mut i: usize = 0;
    while i < 4
        invariant
            i <= 4,
            ladder@ == seq![(4u8, 2u8), (5u8, 1u8), (7u8, 1u8), (10u8, 1u8)],
            on(prev),
            forall|j: int| 0 <= j < i ==> #[trigger] ladder@[j] != prev,
        decreases 4 - i,
    {
        if ladder[i].0 == prev.0 && ladder[i].1 == prev.1 {
            return if i + 1 < 4 {
                ladder[i + 1]
            } else {
                (0, 0)
            };
        }
        i += 1;
    }
    proof {
        assert(ladder@[0] != prev && ladder@[1] != prev && ladder@[2] != prev && ladder@[3] != prev);
    }
    i = 0;
    while i < 4
        invariant
            i <= 4,
            ladder@ == seq![(4u8, 2u8), (5u8, 1u8), (7u8, 1u8), (10u8, 1u8)],
            on(prev),
            ladder@[0] != prev,
            ladder@[1] != prev,
            ladder@[2] != prev,
            ladder@[3] != prev,
            forall|j: int| 0 <= j < i ==> !lighter(#[trigger] ladder@[j], prev),
        decreases 4 - i,
    {
        if is_lighter(ladder[i], prev) {
            proof {
                assert(i > 0 ==> !lighter(ladder@[0], prev));
                assert(i > 1 ==> !lighter(ladder@[1], prev));
                assert(i > 2 ==> !lighter(ladder@[2], prev));
            }
            return ladder[i];
        }
        i += 1;
    }
    proof {
        assert(!lighter(ladder@[0], prev) && !lighter(ladder@[1], prev) && !lighter(
            ladder@[2],
            prev,
        ) && !lighter(ladder@[3], prev));
    }
    (0, 0)
}

/// What the loss classifier makes of a proposal: where delay shows congestion,
/// parity does not rise.
pub open spec fn classified(
    proposed: (u8, u8),
    last: Option<(u8, u8)>,
    enabled: bool,
    congestive: bool,
) -> (bool, (u8, u8)) {
    if enabled && congestive && raises(last, proposed) {
        (
            true,
            match last {
                Some(p) => p,
                None => (0, 0),
            },
        )
    } else {
        (false, proposed)
    }
}

/// Holds the ratio where delay shows congestion and the proposal would raise
/// parity; tells whether it held.
pub fn apply_fec_loss_classifier(
    proposed: (u8, u8),
    ratio_last: Option<(u8, u8)>,
    classifier_enabled: bool,
    congestive: bool,
) -> (out: (bool, (u8, u8)))
    ensures
        out == classified(proposed, ratio_last, classifier_enabled, congestive),
{
    if !classifier_enabled || !congestive || !fec_ratio_would_increase_parity(
        ratio_last,
        proposed,
    ) {
        return (false, proposed);
    }
    match ratio_last {
        Some(p) => (true, p),
        None => (true, (0, 0)),
    }
}

/// What the recovery makes of a proposal: once delay has gone down after recent
/// congestion, parity goes down a step.
pub open spec fn recovered(
    proposed: (u8, u8),
    last: Option<(u8, u8)>,
    enabled: bool,
    congestive: bool,
    last_congestive_at: Option<u64>,
    now: u64,
    recency: u64,
) -> (bool, (u8, u8)) {
    if enabled && recency != 0 && last is Some && on(last->0) && !congestive && last_congestive_at
        is Some && engine_state::elapsed(now, last_congestive_at->0) <= recency && !lowers(
        proposed,
        last->0,
    ) {
        (true, stepped_down(last->0))
    } else {
        (false, proposed)
    }
}

/// Takes the ratio a step down after recent congestion; tells whether it did.
pub fn apply_fec_recovery_stepdown(
    proposed: (u8, u8),
    ratio_last: Option<(u8, u8)>,
    classifier_enabled: bool,
    congestive: bool,
    last_congestive_at: Option<u64>,
    now: u64,
    recency: u64,
) -> (out: (bool, (u8, u8)))
    ensures
        out == recovered(
            proposed,
            ratio_last,
            classifier_enabled,
            congestive,
            last_congestive_at,
            now,
            recency,
        ),
{
    if !classifier_enabled || recency == 0 || congestive {
        return (false, proposed);
    }
    match (ratio_last, last_congestive_at) {
        (Some(prev), Some(at)) => {
            if prev.0 == 0 || prev.1 == 0 || since(now, at) > recency
                || fec_ratio_is_strictly_lower(proposed, prev) {
                return (false, proposed);
            }
            (true, fec_ratio_step_down(prev))
        },
        _ => (false, proposed),
    }
}

/// The ratio that loss asks for. A code that is on goes off where the loss is at most
/// the threshold for off, and one that is off comes on where the loss is more than the
/// threshold for on. `plain` is the ratio for the loss as it is, and
/// `floored` the one for a loss that is not below the threshold for off.
pub open spec fn hysteresis(
    prev: Option<(u8, u8)>,
    at_most_off: bool,
    at_most_on: bool,
    plain: (u8, u8),
    floored: (u8, u8),
) -> (u8, u8) {
    if prev is Some && on(prev->0) {
        if at_most_off {
            (0, 0)
        } else {
            floored
        }
    } else if at_most_on {
        (0, 0)
    } else {
        plain
    }
}

/// The ratio that loss asks for, with one threshold for turning the code on and
/// another for turning it off.
pub fn fec_ratio_hysteresis(
    prev: Option<(u8, u8)>,
    at_most_off: bool,
    at_most_on: bool,
    plain: (u8, u8),
    floored: (u8, u8),
) -> (out: (u8, u8))
    ensures
        out == hysteresis(prev, at_most_off, at_most_on, plain, floored),
{
    let was_on: bool = match prev {
        Some(p) => p.0 > 0 && p.1 > 0,
        None => false,
    };
    if was_on {
        if at_most_off {
            (0, 0)
        } else {
            floored
        }
    } else if at_most_on {
        (0, 0)
    } else {
        plain
    }
}

/// How long a ratio stays when the code is turned on or off, in milliseconds.
pub const FEC_SWITCH_HOLD_MS: u64 = 2_000;

/// How long a ratio stays otherwise, in milliseconds.
pub const FEC_RATIO_HOLD_MS: u64 = 250;

/// What is remembered of the coding for a destination. Times are milliseconds.
#[derive(Clone, Copy)]
pub struct FecSendState {
    pub backoff_until: Option<u64>,
    pub ratio_last: Option<(u8, u8)>,
    pub ratio_last_change: Option<u64>,
    pub last_congestive_at: Option<u64>,
}

/// What is known when a packet is to be sent.
#[derive(Clone, Copy)]
pub struct FecSendInput {
    pub enabled: bool,
    pub now: u64,
    pub len: usize,
    /// The configured size of shards.
    pub shard_payload_size: usize,
    /// The size of shards that the paths allow.
    pub effective: Option<usize>,
    /// The ratio that is configured, if the ratio does not adapt.
    pub forced: Option<(u8, u8)>,
    /// The ratio that loss asks for.
    pub adaptive: (u8, u8),
    pub classifier_enabled: bool,
    /// Delay shows congestion.
    pub congestive: bool,
    pub recovery_recency_ms: u64,
    pub max_total_shards: usize,
}

/// Where a packet goes.
#[derive(Clone, Copy, Debug, PartialEq, Eq, Structural)]
pub enum FecRoute {
    /// It is sent as it is.
    Normal,
    /// It is sent as it is, for it is too large for a shard.
    OversizeBypass,
    /// It is sent as it is, for the paths do not carry a shard that holds it.
    MtuBypass,
    /// It is coded.
    Code { data: u8, parity: u8 },
}

/// Where a packet goes, and what happened to the ratio.
#[derive(Clone, Copy)]
pub struct FecSendPlan {
    pub route: FecRoute,
    /// Congestion held the ratio.
    pub held: bool,
    /// The classifier let the ratio pass.
    pub allowed: bool,
    /// The ratio went down a step after congestion.
    pub stepped: bool,
}

/// The route of a packet that is not coded, whatever the ratio is.
pub open spec fn bypass(st: FecSendState, i: FecSendInput) -> Option<FecRoute> {
    if !i.enabled || (st.backoff_until matches Some(u) && u > i.now) {
        Some(FecRoute::Normal)
    } else if i.len > i.shard_payload_size {
        Some(FecRoute::OversizeBypass)
    } else if i.effective is None || i.len > i.effective->0 {
        Some(FecRoute::MtuBypass)
    } else {
        None
    }
}

/// How long a ratio stays before it can change from `prev` to `next`.
pub open spec fn hold_window(prev: (u8, u8), next: (u8, u8)) -> u64 {
    if (prev == (0u8, 0u8) && on(next)) || (next == (0u8, 0u8) && on(prev)) {
        FEC_SWITCH_HOLD_MS
    } else {
        FEC_RATIO_HOLD_MS
    }
}

/// The change from the last ratio to `next` comes too soon.
pub open spec fn too_soon(st: FecSendState, next: (u8, u8), now: u64) -> bool {
    &&& st.ratio_last matches Some(prev) && prev != next
    &&& st.ratio_last_change matches Some(t) && engine_state::elapsed(now, t) < hold_window(
        st.ratio_last->0,
        next,
    )
}

/// The time of the last congestion, once delay was looked at.
pub open spec fn congestion_noted(st: FecSendState, i: FecSendInput) -> Option<u64> {
    if i.classifier_enabled && i.congestive {
        Some(i.now)
    } else {
        st.last_congestive_at
    }
}

/// The ratio that is asked for, before the hold: whether congestion held it,
/// whether it went down a step, and the ratio.
pub open spec fn wanted(st: FecSendState, i: FecSendInput) -> (bool, bool, (u8, u8)) {
    match i.forced {
        Some(r) => (false, false, r),
        None => {
            let (held, r) = classified(
                i.adaptive,
                st.ratio_last,
                i.classifier_enabled,
                i.congestive,
            );
            let (stepped, r2) = recovered(
                r,
                st.ratio_last,
                i.classifier_enabled,
                i.congestive,
                congestion_noted(st, i),
                i.now,
                i.recovery_recency_ms,
            );
            (held, stepped, r2)
        },
    }
}

/// The ratio that is used.
pub open spec fn used_ratio(st: FecSendState, i: FecSendInput) -> (u8, u8) {
    let next = wanted(st, i).2;
    if i.forced is None && too_soon(st, next, i.now) {
        st.ratio_last->0
    } else {
        next
    }
}

/// The state after the ratio was chosen.
pub open spec fn ratio_chosen(st: FecSendState, i: FecSendInput) -> FecSendState {
    let next = wanted(st, i).2;
    let noted = FecSendState { last_congestive_at: congestion_noted(st, i), ..st };
    if i.forced is None && (st.ratio_last == Some(next) || too_soon(st, next, i.now)) {
        noted
    } else {
        FecSendState { ratio_last: Some(next), ratio_last_change: Some(i.now), ..noted }
    }
}

impl FecSendState {
    pub fn new() -> (out: Self)
        ensures
            out == (FecSendState {
                backoff_until: None,
                ratio_last: None,
                ratio_last_change: None,
                last_congestive_at: None,
            }),
    {
        FecSendState {
            backoff_until: None,
            ratio_last: None,
            ratio_last_change: None,
            last_congestive_at: None,
        }
    }

    /// Chooses the ratio for a packet.
    fn choose_ratio(&mut self, i: &FecSendInput) -> (out: (bool, bool, (u8, u8)))
        ensures
            *final(self) == ratio_chosen(*old(self), *i),
            out.0 == wanted(*old(self), *i).0,
            out.1 == wanted(*old(self), *i).1,
            out.2 == used_ratio(*old(self), *i),
    {
        if let Some(r) = i.forced {
            if i.classifier_enabled && i.congestive {
                self.last_congestive_at = Some(i.now);
            }
            self.ratio_last = Some(r);
            self.ratio_last_change = Some(i.now);
            return (false, false, r);
        }
        let (held, after_hold) = apply_fec_loss_classifier(
            i.adaptive,
            self.ratio_last,
            i.classifier_enabled,
            i.congestive,
        );
        if i.classifier_enabled && i.congestive {
            self.last_congestive_at = Some(i.now);
        }
        let (stepped, next) = apply_fec_recovery_stepdown(
            after_hold,
            self.ratio_last,
            i.classifier_enabled,
            i.congestive,
            self.last_congestive_at,
            i.now,
            i.recovery_recency_ms,
        );
        match self.ratio_last {
            Some(prev) => {
                if prev.0 == next.0 && prev.1 == next.1 {
                    return (held, stepped, next);
                }
                let off_to_on: bool = prev.0 == 0 && prev.1 == 0 && next.0 > 0 && next.1 > 0;
                let on_to_off: bool = next.0 == 0 && next.1 == 0 && prev.0 > 0 && prev.1 > 0;
                let window: u64 = if off_to_on || on_to_off {
                    FEC_SWITCH_HOLD_MS
                } else {
                    FEC_RATIO_HOLD_MS
                };
                let hold: bool = match self.ratio_last_change {
                    Some(t) => since(i.now, t) < window,
                    None => false,
                };
                if hold {
                    return (held, stepped, prev);
                }
            },
            None => {},
        }
        self.ratio_last = Some(next);
        self.ratio_last_change = Some(i.now);
        (held, stepped, next)
    }

    /// Decides whether a packet is coded, and with which ratio.
    pub fn fec_send(&mut self, i: &FecSendInput) -> (plan: FecSendPlan)
        ensures
            match bypass(*old(self), *i) {
                Some(route) => {
                    &&& *final(self) == *old(self)
                    &&& plan == (FecSendPlan { route, held: false, allowed: false, stepped: false })
                },
                None => {
                    let r = used_ratio(*old(self), *i);
                    let w = wanted(*old(self), *i);
                    &&& *final(self) == ratio_chosen(*old(self), *i)
                    &&& plan.held == w.0
                    &&& plan.stepped == w.1
                    &&& plan.allowed == (i.classifier_enabled && !w.0)
                    &&& plan.route == if on(r) && r.0 + r.1 <= i.max_total_shards {
                        FecRoute::Code { data: r.0, parity: r.1 }
                    } else {
                        FecRoute::Normal
                    }
                },
            },
    {
        let backing_off: bool = match self.backoff_until {
            Some(until) => until > i.now,
            None => false,
        };
        let none = FecSendPlan {
            route: FecRoute::Normal,
            held: false,
            allowed: false,
            stepped: false,
        };
        if !i.enabled || backing_off {
            return none;
        }
        if i.len > i.shard_payload_size {
            return FecSendPlan { route: FecRoute::OversizeBypass, ..none };
        }
        let carried: bool = match i.effective {
            Some(e) => i.len <= e,
            None => false,
        };
        if !carried {
            return FecSendPlan { route: FecRoute::MtuBypass, ..none };
        }
        let (held, stepped, r) = self.choose_ratio(i);
        let total: usize = r.0 as usize + r.1 as usize;
        let route: FecRoute = if r.0 == 0 || r.1 == 0 || total > i.max_total_shards {
            FecRoute::Normal
        } else {
            FecRoute::Code { data: r.0, parity: r.1 }
        };
        FecSendPlan { route, held, allowed: i.classifier_enabled && !held, stepped }
    }
}

/// A step down asks for less parity than before.
pub proof fn step_down_lowers(prev: (u8, u8))
    requires
        on(prev),
    ensures
        lowers(stepped_down(prev), prev),
{
    let next = stepped_down(prev);
    if prev == (4u8, 2u8) {
        assert(next == (5u8, 1u8));
        assert(lighter((5u8, 1u8), (4u8, 2u8)));
    } else if prev == (5u8, 1u8) {
        assert(next == (7u8, 1u8));
        assert(lighter((7u8, 1u8), (5u8, 1u8)));
    } else if prev == (7u8, 1u8) {
        assert(next == (10u8, 1u8));
        assert(lighter((10u8, 1u8), (7u8, 1u8)));
    } else if prev == (10u8, 1u8) {
        assert(!on(next));
    } else {
        assert(!on(next) || lighter(next, prev));
    }
}

/// The ratio after `n` steps down.
pub open spec fn steps_down(prev: (u8, u8), n: nat) -> (u8, u8)
    decreases n,
{
    if n == 0 {
        prev
    } else {
        stepped_down(steps_down(prev, (n - 1) as nat))
    }
}

/// Five steps down turn the code off, whatever the ratio was.
pub proof fn five_steps_reach_off(prev: (u8, u8))
    ensures
        steps_down(prev, 5) == (0u8, 0u8),
{
    reveal_with_fuel(steps_down, 6);
    let one = stepped_down(prev);
    assert(one == (0u8, 0u8) || one == (4u8, 2u8) || one == (5u8, 1u8) || one == (7u8, 1u8) || one
        == (10u8, 1u8));
}

/// While delay shows congestion, the classifier lets no ratio pass that asks
/// for more parity than the last one.
pub proof fn congestion_never_raises(proposed: (u8, u8), last: Option<(u8, u8)>)
    ensures
        !raises(last, classified(proposed, last, true, true).1),
{
}

/// A ratio that adapts changes at most once in the time that it is held: a
/// change of the last ratio needs that time since the change before.
pub proof fn ratio_changes_are_rare(st: FecSendState, i: FecSendInput)
    requires
        i.forced is None,
        st.ratio_last is Some,
        st.ratio_last_change is Some,
        ratio_chosen(st, i).ratio_last != st.ratio_last,
    ensures
        engine_state::elapsed(i.now, st.ratio_last_change->0) >= FEC_RATIO_HOLD_MS,
        (on(st.ratio_last->0) && ratio_chosen(st, i).ratio_last == Some((0u8, 0u8)))
            ==> engine_state::elapsed(i.now, st.ratio_last_change->0) >= FEC_SWITCH_HOLD_MS,
{
}

} // verus!
