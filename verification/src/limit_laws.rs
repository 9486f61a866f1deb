//! What holds at the limits: of the drain, of the endpoints that are tried, of syncs that
//! come in, of shards that do not come, of congestion, and of what is forgotten.

use crate::addr::Endpoint;
use crate::apd;
use crate::apd::{ApdInput, ApdState};
use crate::claim;
use crate::decentralized;
use crate::decentralized::SearchView;
use crate::engine_routes;
use crate::engine_routes::{MsynRoute, Peers};
use crate::engine_state;
use crate::engine_state::EngineState;
use crate::fec;
use crate::fec::EncoderView;
use crate::fec_codec;
use crate::fec_decoder;
use crate::fec_decoder::{DecoderView, GroupView, ResultView};
use crate::fec_ratio;
use crate::fec_ratio::{FecSendInput, FecSendState};
use crate::fec_tx_worker;
use crate::fec_tx_worker::FecTxTuning;
use crate::msyn_assemble;
use crate::msyn_assemble::{AssembleKey, MsynPart, PartialView};
use crate::punch_targets;
use crate::routing;
use crate::text;
use vstd::prelude::*;

verus! {

/// Queues above their mark begin a drain only once the ramp has reached its highest burst. A
/// drain goes on until it has taken the time that it is given, or until the queues are below
/// their mark and nobody waits as long as the target; one that took all its time is counted.
pub proof fn drains_keep_their_limits(st: ApdState, i: ApdInput)
    requires
        st.confirm_counter < u32::MAX,
        st.drain_budget_hits < u64::MAX,
    ensures
        ({
            let (st1, d) = apd::stepped(st, i);
            let held = st.cfg.require_cc_headroom && !i.cc_sendable;
            let waited = st.cfg.sojourn_enabled && i.hol_sojourn > 1000 * st.cfg.max_sojourn_ms;
            let top = i.ramp_target >= st.cfg.ramp_max_burst && i.ramp_target >= i.base_burst;
            let calm = i.below_low && (!st.cfg.sojourn_enabled || i.hol_sojourn < 1000
                * st.cfg.target_sojourn_ms);
            let spent = st.cfg.spinloop_budget_ms > 0 && st.drain_entered_at is Some && i.now
                >= st.drain_entered_at->0 && i.now - st.drain_entered_at->0 >= 1000
                * st.cfg.spinloop_budget_ms;
            &&& st.phase is Alert && !held && i.rising && i.above_high && top && st.confirm_counter
                + 1 >= st.cfg.confirm_ticks ==> st1.phase is Drain
            &&& st.phase is Alert && i.rising && !top && !waited ==> st1.phase is Alert
            &&& st.phase is Alert && held ==> st1.phase is Alert
            &&& st.phase is Drain && !held ==> (st1.phase is Cooldown <==> spent || calm)
            &&& st.phase is Drain && !held && !spent && !calm ==> st1.phase is Drain
                && st1.drain_entered_at == st.drain_entered_at
            &&& st.phase is Drain && !held && spent ==> st1.drain_budget_hits == st.drain_budget_hits
                + 1
            &&& st.phase is Drain && !(!held && spent) ==> st1.drain_budget_hits
                == st.drain_budget_hits
            &&& st.phase is Drain && st1.phase is Cooldown && st.drain_entered_at is Some && i.now
                >= st.drain_entered_at->0 && st.drain_ms_total + (i.now - st.drain_entered_at->0)
                / 1000 <= u64::MAX ==> st1.drain_ms_total == st.drain_ms_total + (i.now
                - st.drain_entered_at->0) / 1000
            &&& st.phase is Drain && st1.phase is Drain ==> st1.drain_ms_total == st.drain_ms_total
        }),
{
}

/// The number of elements that are left when each is kept once.
proof fn firsts_are_fewer(s: Seq<Endpoint>)
    ensures
        punch_targets::firsts(s).len() <= s.len(),
    decreases s.len(),
{
    if s.len() > 0 {
        firsts_are_fewer(s.drop_last());
    }
}

/// Where the endpoints around the one at `i` stand among all of them.
proof fn scans_are_kept(
    base: Seq<Endpoint>,
    hint: Option<Endpoint>,
    hint_width: int,
    width: int,
    i: int,
    k: int,
) -> (at: int)
    requires
        0 <= i < base.len(),
        ({
            let w = if hint == Some(base[i]) {
                hint_width
            } else {
                width
            };
            0 <= k < punch_targets::scanned(base[i], w).len()
        }),
    ensures
        ({
            let w = if hint == Some(base[i]) {
                hint_width
            } else {
                width
            };
            let all = punch_targets::all_scanned(base, hint, hint_width, width);
            0 <= at < all.len() && all[at] == punch_targets::scanned(base[i], w)[k]
        }),
    decreases base.len(),
{
    let head = punch_targets::all_scanned(base.drop_last(), hint, hint_width, width);
    if i == base.len() - 1 {
        head.len() + k
    } else {
        scans_are_kept(base.drop_last(), hint, hint_width, width, i, k)
    }
}

/// Where there is room for all, every endpoint that is given is tried, and every one around
/// it: up to the wider limit around the endpoint of the hint, and the other limit elsewhere.
pub proof fn neighbours_are_tried(
    base: Seq<Endpoint>,
    hint: Option<Endpoint>,
    hint_width: int,
    width: int,
    max_total: int,
    i: int,
    e: Endpoint,
)
    requires
        0 <= i < base.len(),
        ({
            let w = if hint == Some(base[i]) {
                hint_width
            } else {
                width
            };
            e == base[i] || punch_targets::scanned(base[i], w).contains(e)
        }),
        base.len() + punch_targets::all_scanned(base, hint, hint_width, width).len() <= max_total,
    ensures
        punch_targets::expanded_targets(base, hint, hint_width, width, max_total).contains(e),
{
    let w = if hint == Some(base[i]) {
        hint_width
    } else {
        width
    };
    let scan = punch_targets::scanned(base[i], w);
    let all = punch_targets::candidates(base, hint, hint_width, width);
    firsts_are_fewer(all);
    punch_targets::firsts_keep_all(all);
    if e == base[i] {
        assert(all[i] == e);
    } else {
        let k = choose|k: int| 0 <= k < scan.len() && scan[k] == e;
        let at = scans_are_kept(base, hint, hint_width, width, i, k);
        assert(all[base.len() + at] == e);
    }
    assert(all.contains(e));
    assert(punch_targets::firsts(all).contains(e));
}

/// Every peer that a search found is tried, as long as there are no more than 512 of them;
/// whether or not a join waits.
pub proof fn found_peers_are_tried(v: SearchView, targets: Seq<Endpoint>, waits: bool, i: int)
    requires
        0 <= i < targets.len() <= 512,
    ensures
        decentralized::tick_result(v, targets, waits).0.contains(targets[i]),
{
    let (punch, join) = decentralized::tick_result(v, targets, waits);
    let f = punch_targets::firsts(targets);
    firsts_are_fewer(targets);
    punch_targets::firsts_keep_all(targets);
    punch_targets::searches_stay_in_bounds(targets, v.join_owner_hint, 256, 128, 512);
    assert(targets.contains(targets[i]));
    assert(f.contains(targets[i]));
    let k = choose|k: int| 0 <= k < f.len() && f[k] == targets[i];
    assert(punch[k] == f[k]);
}

/// A search at rest belongs to no room and has no name: twenty zero bytes each.
pub proof fn rest_has_no_room(generation: u64, i: int)
    ensures
        ({
            let v = decentralized::at_rest(generation);
            &&& v.room_id.len() == 20 && v.peer_id.len() == 20
            &&& 0 <= i < 20 ==> v.room_id[i] == 0 && v.peer_id[i] == 0
        }),
{
}

/// Of one sender only the sync that leads furthest is put together: where one that leads
/// further is under way, a part of another is not taken; a part that leads as far or further
/// ends the others.
pub proof fn furthest_sync_wins(
    m: Map<AssembleKey, PartialView>,
    from: Endpoint,
    v: MsynPart,
    applied: u64,
    now: u64,
    k: AssembleKey,
)
    requires
        msyn_assemble::part_valid(v, applied),
        m.dom().contains(k),
        k.from == from,
        Some(k.sync_id) != v.sync_id,
        now < m[k].first_seen || now - m[k].first_seen < 30_000,
    ensures
        ({
            let (out, m1) = msyn_assemble::ingested(m, from, v, applied, now);
            &&& m[k].to_rev > v.to_rev->0 ==> out is Ignored && m1.dom().contains(k) && m1[k] == m[k]
            &&& m[k].to_rev <= v.to_rev->0 ==> !m1.dom().contains(k)
        }),
{
    let m1 = msyn_assemble::swept(m, now);
    let m2 = msyn_assemble::superseded(m1, from, v.sync_id->0, v.to_rev->0);
    assert(m1.dom().contains(k));
    if m[k].to_rev > v.to_rev->0 {
        assert(m2.dom().contains(k));
    }
}

/// Removals that were not looked at yet change nothing of the peer.
proof fn not_removed_yet(p: Peers, my: Seq<char>, prefix: u8, removed: Seq<String>, n: nat, v: Seq<char>)
    requires
        n <= removed.len(),
        forall|j: int| 0 <= j < n ==> (#[trigger] removed[j])@ != v,
    ensures
        ({
            let q = engine_routes::after_removals(p, my, prefix, removed, n);
            q.routes.dom().contains(v) == p.routes.dom().contains(v) && q.routes[v] == p.routes[v]
        }),
    decreases n,
{
    if n > 0 {
        not_removed_yet(p, my, prefix, removed, (n - 1) as nat, v);
    }
}

/// Every removal that a sync names is told, if it is a host of this subnet: with the address
/// of the peer and, the first time, its node and the endpoint at which it was reached.
pub proof fn removals_say_who_and_where(
    p: Peers,
    my: Seq<char>,
    prefix: u8,
    removed: Seq<String>,
    n: nat,
    i: int,
) -> (k: int)
    requires
        0 <= i < n <= removed.len(),
        routing::sync_vip_ok(my, removed[i]@, prefix),
        forall|j: int| 0 <= j < i ==> (#[trigger] removed[j])@ != removed[i]@,
    ensures
        ({
            let told = engine_routes::removals_told(p, my, prefix, removed, n);
            &&& 0 <= k < told.len()
            &&& told[k].gone.vip == removed[i]@
            &&& told[k].ep == if p.routes.dom().contains(removed[i]@) {
                Some(p.routes[removed[i]@].endpoint)
            } else {
                None
            }
            &&& p.routes.dom().contains(removed[i]@) && p.routes[removed[i]@].node_id.len() > 0
                ==> told[k].gone.node_id == Some(p.routes[removed[i]@].node_id)
            &&& told.len() <= n
        }),
    decreases n,
{
    let rest = engine_routes::removals_told(p, my, prefix, removed, (n - 1) as nat);
    told_at_most(p, my, prefix, removed, n);
    if i == n - 1 {
        not_removed_yet(p, my, prefix, removed, (n - 1) as nat, removed[i]@);
        rest.len() as int
    } else {
        removals_say_who_and_where(p, my, prefix, removed, (n - 1) as nat, i)
    }
}

proof fn told_at_most(p: Peers, my: Seq<char>, prefix: u8, removed: Seq<String>, n: nat)
    ensures
        engine_routes::removals_told(p, my, prefix, removed, n).len() <= n,
    decreases n,
{
    if n > 0 {
        told_at_most(p, my, prefix, removed, (n - 1) as nat);
    }
}

/// A sync from the start knows every peer: a host of this subnet that it does not name is no
/// peer any more. This node itself, what it names, and what lies outside the subnet stay.
pub proof fn unnamed_peers_go(
    p: Peers,
    my: Seq<char>,
    prefix: u8,
    routes: Seq<MsynRoute>,
    vips: Seq<Seq<char>>,
    v: Seq<char>,
)
    requires
        engine_routes::lists_keys(vips, p.routes),
    ensures
        ({
            let q = engine_routes::after_phantoms(p, my, prefix, routes, vips, vips.len());
            let named = exists|i: int| 0 <= i < routes.len() && (#[trigger] routes[i])@.vip == Some(v);
            let goes = v != my && routing::sync_vip_ok(my, v, prefix) && !named;
            &&& goes ==> !q.routes.dom().contains(v)
            &&& !goes ==> q.routes.dom().contains(v) == p.routes.dom().contains(v)
            &&& !goes && p.routes.dom().contains(v) ==> q.routes[v] == p.routes[v]
        }),
{
    let named = exists|i: int| 0 <= i < routes.len() && (#[trigger] routes[i])@.vip == Some(v);
    if v != my && routing::sync_vip_ok(my, v, prefix) && !named {
        engine_routes::no_phantoms_left(p, my, prefix, routes, vips, v);
    } else {
        engine_routes::named_routes_stay(p, my, prefix, routes, vips, vips.len(), v);
    }
}

/// The time of the last congestion is kept until congestion shows again. A ratio that is set
/// is neither held back nor lowered by it, and without the look at delay none is.
pub proof fn congestion_is_remembered(st: FecSendState, i: FecSendInput)
    ensures
        ({
            let st1 = fec_ratio::ratio_chosen(st, i);
            let (held, stepped, r) = fec_ratio::wanted(st, i);
            &&& !(i.classifier_enabled && i.congestive) ==> st1.last_congestive_at
                == st.last_congestive_at
            &&& i.classifier_enabled && i.congestive ==> st1.last_congestive_at == Some(i.now)
            &&& i.forced is Some ==> !held && !stepped
            &&& !i.classifier_enabled ==> !held && !stepped
            &&& !held && !stepped && i.forced is None ==> r == i.adaptive
        }),
{
}

/// What is learnt of peers changes nothing else of the session: neither who this node is, nor
/// who was kicked, nor which joins wait, nor what others have still to be told.
pub proof fn sessions_outlast_peers(pre: EngineState, post: EngineState)
    requires
        EngineState::beyond_peers(pre, post),
    ensures
        post.id == pre.id,
        post.kicked == pre.kicked,
        post.membership_version == pre.membership_version,
        post.join_waiting == pre.join_waiting,
        post.pending_join_ack == pre.pending_join_ack,
        post.sync.peer_pending_removals == pre.sync.peer_pending_removals,
        post.sync.msyn_applied_to_rev == pre.sync.msyn_applied_to_rev,
        post.crypto_keys.primary == pre.crypto_keys.primary,
        post.crypto_keys.extras == pre.crypto_keys.extras,
{
}

/// The shards that a group has not got.
pub open spec fn lost(g: GroupView) -> nat {
    g.received.filter(|s: Option<Seq<u8>>| s is None).len()
}

proof fn lost_are_missing(r: Seq<Option<Seq<u8>>>, n: nat)
    requires
        n <= r.len(),
    ensures
        r.take(n as int).filter(|s: Option<Seq<u8>>| s is None).len() + fec_codec::present(r, n) == n,
    decreases n,
{
    reveal(Seq::filter);
    if n > 0 {
        lost_are_missing(r, (n - 1) as nat);
        assert(r.take(n as int).drop_last() =~= r.take(n - 1));
    }
}

/// What a frame does to the group that waits for it, and how many shards count as missing:
/// a frame that makes no sense, or that is of another shape than the group, ends the group,
/// and what the group has not got is missing. A shard that is there already changes nothing;
/// another is new, and where it does not complete the group, it waits there. Once in fifty
/// milliseconds old groups are looked for, and not before.
pub proof fn missing_shards_are_counted(
    pre: DecoderView,
    raw: Seq<u8>,
    now: u64,
    out: ResultView,
    post: DecoderView,
)
    requires
        fec_decoder::pushed(pre, raw, now, out, post),
        raw.len() >= 10,
        raw[0] == pre.frame_type,
    ensures
        engine_state::elapsed(now, pre.last_evict) >= 50_000 ==> post.last_evict == now,
        engine_state::elapsed(now, pre.last_evict) < 50_000 ==> post.last_evict == pre.last_evict,
        ({
            let id = fec_codec::head_of(raw).group_id;
            let g = pre.groups[id];
            let waits = pre.groups.dom().contains(id);
            let quiet = engine_state::elapsed(now, pre.last_evict) < 50_000
                && !pre.completed.contains(id);
            let sound = !fec_decoder::malformed(raw);
            let alike = g.data == raw[6] && g.parity == raw[7] && g.size == raw[8] + 0x100 * raw[9];
            &&& quiet && !sound ==> out.invalid && !post.groups.dom().contains(id)
            &&& quiet && !sound && waits ==> out.shards_missing == lost(g)
            &&& quiet && !sound && !waits ==> out.shards_missing == 0
            &&& quiet && sound && waits && !alike ==> out.invalid && out.shards_missing == lost(g)
                && !post.groups.dom().contains(id)
            &&& quiet && sound && waits && alike ==> !out.invalid
            &&& quiet && sound && waits && alike && g.received[raw[5] as int] is Some
                ==> out.shards_new == 0 && out.recovered.len() == 0 && post.groups == pre.groups
                && out.shards_missing == 0
            &&& quiet && sound && waits && alike && g.received[raw[5] as int] is None
                ==> out.shards_new == 1
            &&& quiet && sound && waits && alike && g.received[raw[5] as int] is None && g.received.len()
                == raw[6] + raw[7] && lost(g) > raw[7] + 1 ==> out.recovered.len() == 0
                && post.groups.dom().contains(id) && post.groups[id].received
                == g.received.update(raw[5] as int, post.groups[id].received[raw[5] as int])
                && post.groups[id].received[raw[5] as int] is Some
        }),
{
    let (d, missing) = fec_decoder::swept(pre, now);
    let id = fec_codec::head_of(raw).group_id;
    let g = pre.groups[id];
    if pre.groups.dom().contains(id) {
        lost_are_missing(g.received, g.received.len());
        assert(g.received.take(g.received.len() as int) =~= g.received);
    }
    if !d.completed.contains(id) && !fec_decoder::malformed(raw) {
        let (room, more) = choose|room: Map<u32, GroupView>, more: nat|
            {
                &&& #[trigger] fec_decoder::made_room(d.groups, id, room, more)
                &&& (out, post) == fec_decoder::taken(
                    DecoderView { groups: room, ..d },
                    raw,
                    now,
                    missing + more,
                )
                &&& fec_decoder::closes(room, raw, now) ==> forall|pkts: Seq<Seq<u8>>| #[trigger]
                    fec_decoder::from_packets(
                        fec_decoder::with_shard(fec_decoder::group_of(room, raw, now), raw),
                        pkts,
                    ) ==> out.recovered == pkts
            };
        assert(fec_decoder::made_room(d.groups, id, room, more));
        if pre.groups.dom().contains(id) && g.received.len() == raw[6] + raw[7] {
            let h = g.received.update(raw[5] as int, Some(fec_decoder::payload_of(raw)));
            one_more_at_most(g.received, h, raw[5] as int, g.received.len());
            less_of_a_start(h, raw[6] as nat, h.len());
        }
    }
}

/// One shard more is one shard more at most.
proof fn one_more_at_most(r: Seq<Option<Seq<u8>>>, s: Seq<Option<Seq<u8>>>, i: int, n: nat)
    requires
        n <= r.len(),
        r.len() == s.len(),
        forall|j: int| 0 <= j < r.len() && j != i ==> #[trigger] r[j] == s[j],
    ensures
        fec_codec::present(s, n) <= fec_codec::present(r, n) + if i < n {
            1nat
        } else {
            0nat
        },
    decreases n,
{
    if n > 0 {
        one_more_at_most(r, s, i, (n - 1) as nat);
    }
}

/// The first shards hold no more than all of them.
proof fn less_of_a_start(r: Seq<Option<Seq<u8>>>, k: nat, n: nat)
    requires
        k <= n <= r.len(),
    ensures
        fec_codec::present(r, k) <= fec_codec::present(r, n),
    decreases n,
{
    if k < n {
        less_of_a_start(r, k, (n - 1) as nat);
    }
}

/// A packet takes a spare buffer where there is one. The buffers of a group that goes out are
/// spare again, as far as there is room for thirty-two of them, and none is kept that is of
/// another size than the shards.
pub proof fn buffers_are_used_again(e: EncoderView, t: FecTxTuning, pkt: Seq<u8>, parity: nat, now: u64)
    ensures
        e.pool > 0 ==> fec::joined(e, pkt, now).pool == e.pool - 1,
        e.pool == 0 ==> fec::joined(e, pkt, now).pool == 0,
        e.pool <= 32 ==> fec::uncoded(e).1.pool <= 32 && fec::uncoded(e).1.pool >= e.pool,
        e.pool <= 32 ==> fec::coded(e, parity).1.pool <= 32,
        e.pool + e.pending.len() <= 32 ==> fec::uncoded(e).1.pool == e.pool + e.pending.len(),
        e.pool <= 32 && e.pool + e.pending.len() > 32 ==> fec::uncoded(e).1.pool == 32,
        parity <= e.pool && e.pool + e.pending.len() <= 32 ==> fec::coded(e, parity).1.pool == e.pool
            + e.pending.len(),
        e.shard != t.shard ==> fec_tx_worker::tuned(e, t).pool == 0,
        e.shard == t.shard ==> fec_tx_worker::tuned(e, t).pool == e.pool,
        fec_tx_worker::tuned(e, t).shard == t.shard && fec_tx_worker::tuned(e, t).pending
            == e.pending,
{
}

/// A part of a dotted quad is read as a byte in the same way by itself.
proof fn part_is_a_byte(s: Seq<char>)
    requires
        text::octet_of(s) is Some,
    ensures
        text::u8_of(s) == text::octet_of(s),
{
    assert(text::is_digit(s[0]));
}

/// Whatever text stands for an address, the search for a free one starts from the four bytes
/// of that address; and a host of its unit is written as the text of that host's address.
pub proof fn searches_start_from_the_address(s: Seq<char>, ip: u32, h: u8)
    requires
        text::ipv4_of(s) == Some(ip),
    ensures
        claim::dotted_bytes(s).len() == 4,
        ({
            let o = claim::dotted_bytes(s);
            &&& text::quad(o[0], o[1], o[2], o[3]) == ip
            &&& text::ipv4_of(claim::unit_host_text(o, h)) == Some(
                (ip - ip % 0x100 + h) as u32,
            )
        }),
{
    let p = text::split_on(s, '.');
    reveal_with_fuel(claim::bytes_in, 5);
    part_is_a_byte(p[0]);
    part_is_a_byte(p[1]);
    part_is_a_byte(p[2]);
    part_is_a_byte(p[3]);
    let o = claim::dotted_bytes(s);
    assert(o =~= seq![
        text::octet_of(p[0])->0,
        text::octet_of(p[1])->0,
        text::octet_of(p[2])->0,
        text::octet_of(p[3])->0,
    ]);
    let q = text::quad(o[0], o[1], o[2], h);
    text::octets_of_quad(o[0], o[1], o[2], h);
    text::octets_of_quad(o[0], o[1], o[2], o[3]);
    text::ipv4_text_reads_back(q);
    assert(claim::unit_host_text(o, h) == text::ipv4_text(q));
}

/// Of a peer whose route is gone nothing is kept: no pause after a repair, no repair that
/// waits, no way that its packets took and no count of them. What is kept of others stays.
pub proof fn forgotten_peers_leave_no_trace(
    pre: EngineState,
    post: EngineState,
    vip: Seq<char>,
    other: Seq<char>,
    ip: u32,
)
    requires
        EngineState::peer_forgotten(pre, post, vip),
    ensures
        !post.heal_cooldown_until@.dom().contains(vip),
        !post.pending_heal_vips@.contains(vip),
        text::ipv4_of(vip) == Some(ip) ==> !post.prev_path_kind@.dom().contains(ip)
            && !post.data_send_ctr@.dom().contains(ip),
        text::ipv4_of(vip) != Some(ip) ==> post.prev_path_kind@.dom().contains(ip)
            == pre.prev_path_kind@.dom().contains(ip) && post.data_send_ctr@.dom().contains(ip)
            == pre.data_send_ctr@.dom().contains(ip) && post.prev_path_kind@[ip]
            == pre.prev_path_kind@[ip] && post.data_send_ctr@[ip] == pre.data_send_ctr@[ip],
        other != vip ==> post.heal_cooldown_until@.dom().contains(other)
            == pre.heal_cooldown_until@.dom().contains(other) && post.pending_heal_vips@.contains(
            other,
        ) == pre.pending_heal_vips@.contains(other) && post.heal_cooldown_until@[other]
            == pre.heal_cooldown_until@[other],
{
}

} // verus!
