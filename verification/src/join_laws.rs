//! What holds of joins, keys, resets and attempts to reach peers again.

use crate::addr;
use crate::addr::Endpoint;
use crate::background_cc;
use crate::background_cc::SendTerms;
use crate::claim;
use crate::claim_gossip;
use crate::claim_gossip::{ClaimView, MarkView};
use crate::config::NetworkConfig;
use crate::decentralized;
use crate::engine_cmd;
use crate::engine_cmd::{Engine, PublicEndpoint};
use crate::engine_ctrl;
use crate::engine_ctrl::JackBody;
use crate::engine_data;
use crate::engine_data::MdatPlan;
use crate::engine_reconnect;
use crate::engine_reconnect::{Reconnect, Searching};
use crate::engine_routes;
use crate::engine_routes::{MsynRoute, Peers};
use crate::engine_state;
use crate::engine_state::EngineState;
use crate::engine_stun;
use crate::engine_stun::QueryView;
use crate::engine_ticks;
use crate::lane::QueuedData;
use crate::outbound_udp;
use crate::pacing;
use crate::pacing::{NextPacket, PacerView};
use crate::pacing_engine;
use crate::queue_laws;
use crate::keys;
use crate::keys::{CryptoPool, Key, KeyRef};
use crate::mtu_policy;
use crate::mtu_policy::MtuPolicy;
use crate::pace_clock;
use crate::pace_clock::{ClockInput, ClockState};
use crate::pacing_defaults;
use crate::pacing_tick;
use crate::pacing_tick::Outgoing;
use crate::punch_state;
use crate::punch_state::PunchView;
use crate::punch_targets;
use crate::routing;
use crate::stun_votes;
use crate::text;
use crate::wire;
use crate::wire::ControlTag;
use vstd::prelude::*;
use vstd::utf8::*;

verus! {

/// An answer to a join is taken only where it assigns an address of a host beside the
/// owner's in one subnet, names the owner in 64 bytes at most, and comes from where a peer
/// can be. Without a prefix the subnet has 24 bits, and without the owner's address the
/// owner is its first host.
pub proof fn join_answers_are_sound(j: JackBody, from: Endpoint)
    ensures
        j.valid(from) ==> text::ipv4_of(j.vip@) is Some && j.owner_of() != j.vip@ && 1
            <= j.owner_node_id@.len() && encode_utf8(j.owner_node_id@).len() <= 64
            && routing::sync_endpoint_ok(from) && routing::sync_vip_ok(
            j.vip@,
            j.owner_of(),
            j.prefix_of(),
        ),
        text::ipv4_of(j.vip@) is Some && text::ipv4_of(j.owner_of()) is Some && j.owner_of()
            != j.vip@ && j.owner_node_id@.len() > 0 && encode_utf8(j.owner_node_id@).len() <= 64
            && routing::sync_endpoint_ok(from) && routing::sync_vip_ok(
            j.vip@,
            j.owner_of(),
            j.prefix_of(),
        ) ==> j.valid(from),
        8 <= j.prefix_of() <= 30,
        j.prefix is None ==> j.prefix_of() == 24,
        j.prefix matches Some(n) ==> 8 <= n <= 30 ==> j.prefix_of() == n,
        j.owner_vip matches Some(v) ==> j.owner_of() == v@,
        j.owner_vip is None ==> j.owner_of() == routing::owner_vip_of(j.vip@, j.prefix_of()),
{
}

/// A node speaks for itself only from the endpoint of its own route: under the name that the
/// route has, or, where it has none, under the name that stands for its address.
pub proof fn senders_speak_for_themselves(s: EngineState, from: Endpoint, node: Seq<char>)
    ensures
        engine_ctrl::sender_is(s, from, node) ==> s.routing.vips().dom().contains(from)
            && s.routing.routes().dom().contains(s.routing.vips()[from]),
        engine_ctrl::sender_is(s, from, node) ==> ({
            let v = s.routing.vips()[from];
            let r = s.routing.routes()[v];
            r.node_id == node || r.node_id.len() == 0 && s.routing.nodes().dom().contains(node)
                && s.routing.nodes()[node] == v
        }),
        s.routing.vips().dom().contains(from) && s.routing.routes().dom().contains(
            s.routing.vips()[from],
        ) && s.routing.routes()[s.routing.vips()[from]].node_id == node && node.len() > 0
            ==> engine_ctrl::sender_is(s, from, node),
{
}

/// A node is found by its name where its address has a route.
pub proof fn nodes_are_found(s: EngineState, node: Seq<char>)
    ensures
        engine_ctrl::node_endpoint(s, node) is Some <==> s.routing.nodes().dom().contains(node)
            && s.routing.routes().dom().contains(s.routing.nodes()[node]),
        engine_ctrl::node_endpoint(s, node) matches Some(ep) ==> ep
            == s.routing.routes()[s.routing.nodes()[node]].endpoint,
        engine_ctrl::node_address(s, node) matches Some(v) ==> engine_ctrl::node_endpoint(s, node)
            is Some && s.routing.vips()[engine_ctrl::node_endpoint(s, node)->0] == v,
{
}

/// An address is free for a new member where no route leads to it and it is not this node's.
pub proof fn free_addresses(s: EngineState, h: int)
    ensures
        ({
            let a = wire::host_addr(s.id.my_vip_u32, s.id.subnet_prefix, h);
            !engine_ctrl::address_taken(s, h) <==> a != s.id.my_vip_u32
                && !s.routing.routes().dom().contains(text::ipv4_text(a))
        }),
{
}

/// What has to be signed where the network has a key: syncs, rosters, kicks, relayed messages,
/// and combined packets that carry a sync, which the low bytes of their flags tell.
pub proof fn what_is_signed(tag: ControlTag, body: Seq<u8>, flag: u16)
    ensures
        tag is Sync || tag is Msmd || tag is Kick || tag is Prxy ==> engine_data::must_sign(
            tag,
            body,
            flag,
        ),
        tag is Mctl && body.len() >= 2 ==> (engine_data::must_sign(tag, body, flag) <==> ((body[0]
            + 0x100 * body[1]) as u16 & flag) != 0),
        tag is Mctl && body.len() < 2 ==> !engine_data::must_sign(tag, body, flag),
        !(tag is Sync || tag is Msmd || tag is Kick || tag is Prxy || tag is Mctl)
            ==> !engine_data::must_sign(tag, body, flag),
{
}

/// There is one thing to do with each packet of a peer: one for this node is delivered, one
/// for all passed round, one for another peer passed on to it by an owner, or by a member
/// from a peer that it knows, but never back to where it came from.
pub proof fn one_plan_for_a_packet(s: EngineState, raw: Seq<u8>, from: Endpoint, a: MdatPlan, b: MdatPlan)
    requires
        engine_data::mdat_planned(s, raw, from, a),
        engine_data::mdat_planned(s, raw, from, b),
    ensures
        a == b,
        a matches MdatPlan::Forward(ep) ==> ep != from && (s.id.is_owner
            || s.routing.vips().dom().contains(from)) && s.routing.routes().dom().contains(
            text::ipv4_text(engine_data::dst_of(raw)),
        ) && s.routing.routes()[text::ipv4_text(engine_data::dst_of(raw))].endpoint == ep,
        a is Deliver ==> engine_data::dst_of(raw) == s.id.my_vip_u32 && s.id.my_vip_u32 != 0,
        raw.len() < 20 <==> a is Ignore,
        raw.len() >= 20 && wire::group_packet(raw) <==> a is Group,
        raw.len() >= 20 && !wire::group_packet(raw) && engine_data::dst_of(raw) == s.id.my_vip_u32
            && s.id.my_vip_u32 != 0 ==> a is Deliver,
{
}

/// A key that becomes the primary one gets a number of its own and is kept besides, unless
/// one of the others holds the same bytes.
pub proof fn primary_keys_are_kept(pre: CryptoPool, post: CryptoPool, key: Key, k: KeyRef)
    requires
        CryptoPool::primary_set(pre, post, key, k),
        pre.extras@.len() <= 8,
    ensures
        post.primary is Some && post.primary->0.key == key && post.primary->0.id == pre.next_id,
        post.next_id == pre.next_id + 1,
        keys::holds_material(post.extras@, key.material()),
        post.per_peer == pre.per_peer,
        post.extras@.len() <= 8,
{
    if !keys::holds_material(pre.extras@, key.material()) {
        let t = pre.extras@.push(k);
        assert(keys::newest(t)[keys::newest(t).len() - 1] == k);
    }
}

/// A key that is added is in use afterwards; one whose bytes are in use already changes
/// nothing.
pub proof fn added_keys_are_in_use(pre: CryptoPool, post: CryptoPool, key: Key, k: KeyRef)
    requires
        CryptoPool::key_added(pre, post, key, k),
        pre.extras@.len() <= 8,
    ensures
        k.key.material() == key.material(),
        post.primary == pre.primary,
        (post.primary is Some && post.primary->0.key.material() == key.material())
            || keys::holds_material(post.extras@, key.material()),
        (pre.primary is Some && pre.primary->0.key.material() == key.material())
            || keys::holds_material(pre.extras@, key.material()) ==> post.extras == pre.extras
            && post.next_id == pre.next_id,
        post.extras@.len() <= 8,
{
    if !(pre.primary is Some && pre.primary->0.key.material() == key.material())
        && !keys::holds_material(pre.extras@, key.material()) {
        let t = pre.extras@.push(k);
        assert(keys::newest(t)[keys::newest(t).len() - 1] == k);
    }
}

/// Nothing of a session outlasts it: no key, no route, no recovery, no counter and no
/// identity but the owner's name; what was applied and owed starts anew.
pub proof fn nothing_outlasts_a_session(pre: EngineState, post: EngineState, v: Seq<char>, e: Endpoint)
    requires
        EngineState::session_left(pre, post),
    ensures
        !post.id.is_owner && post.id.my_vip@.len() == 0 && post.id.my_vip_u32 == 0
            && post.id.my_node_id@.len() == 0 && post.id.owner_ep is None
            && !post.id.owner_ep_trusted && post.id.subnet_prefix == 24
            && post.id.owner_vip_cached@.len() == 0,
        !post.kicked && !post.join_waiting && post.pending_join_ack is None,
        post.crypto_keys.primary is None && post.crypto_keys.extras@.len() == 0,
        !post.routing.routes().dom().contains(v) && !post.routing.vips().dom().contains(e)
            && !post.routing.nodes().dom().contains(v),
        !post.pending_heal_vips@.contains(v) && !post.heal_cooldown_until@.dom().contains(v),
        !post.sync.peer_sync_state@.dom().contains(v) && post.sync.msyn_applied_to_rev == 0
            && post.sync.next_msyn_sync_id == 1,
        post.feature_flags == pre.feature_flags,
{
    assert(post.id@.my_vip.len() == 0);
}

/// Attempts at peers start only where a search is on, no join waits, this node is no owner,
/// knows another peer and has a key; and end once the owner is reached.
pub proof fn attempts_at_peers(st: EngineState, s: Searching)
    ensures
        !engine_reconnect::keeps_quiet(st, s) <==> s.active && !s.join_waiting && !st.id.is_owner
            && st.crypto_keys.any() && exists|v: Seq<char>| #[trigger]
            st.routing.routes().dom().contains(v) && v != st.id.my_vip@ && v
                != st.id.owner_vip_cached@,
        engine_reconnect::owner_reached(st, s) <==> s.owner_healthy
            && engine_state::owner_endpoint_of(st.id@, st.routing.routes()) is Some,
{
}

/// An attempt aims at endpoints that were seen, each once and in order, and only at such as
/// may be the peer's.
pub proof fn attempts_aim_at_what_was_seen(st: EngineState, seen: Seq<Endpoint>, r: Reconnect, e: Endpoint)
    requires
        engine_reconnect::aims_right(st, seen, r),
    ensures
        r.bases@.len() > 0,
        r.bases@.contains(e) ==> seen.contains(e),
        r.peer matches Some(p) ==> (r.bases@.contains(e) <==> seen.contains(e)
            && engine_ticks::tried_for(
            st.routing,
            st.id.my_vip@,
            st.id.owner_vip_cached@,
            e,
            p@,
        )),
        r.peer is None ==> (r.bases@.contains(e) <==> seen.contains(e)
            && engine_ticks::tried_unbound(
            st.routing,
            st.id.my_vip@,
            st.id.owner_vip_cached@,
            e,
        )),
        forall|i: int, j: int|
            0 <= i < j < r.bases@.len() ==> addr::ep_before(
                #[trigger] r.bases@[i],
                #[trigger] r.bases@[j],
            ),
{
}

/// What is noted of attempts: each that starts runs and has begun now; nothing else changes.
pub proof fn attempts_are_noted(pre: PunchView, post: PunchView, started: Seq<Reconnect>, now: u64, i: int, n: Seq<char>)
    requires
        engine_reconnect::noted(pre, post, started, now),
        0 <= i < started.len(),
    ensures
        post.running.contains(punch_state::peer_key(engine_reconnect::name_of(started[i]))),
        post.began.dom().contains(engine_reconnect::name_of(started[i])),
        post.began[engine_reconnect::name_of(started[i])] == now,
        pre.running.contains(n) ==> post.running.contains(n),
        pre.began.dom().contains(n) && !engine_reconnect::begins(started, n)
            ==> post.began.dom().contains(n) && post.began[n] == pre.began[n],
        post.fastpath == pre.fastpath && post.announced == pre.announced,
        started[i].peer matches Some(p) ==> engine_reconnect::name_of(started[i]) == p@,
        started[i].peer is None ==> engine_reconnect::name_of(started[i]) == "unbound"@,
{
    let m = engine_reconnect::name_of(started[i]);
    assert(engine_reconnect::begins(started, m));
    assert(post.began.dom().contains(m));
    assert(post.began[m] == now);
    assert(engine_reconnect::begins_key(started, punch_state::peer_key(m)));
}

/// The owner's new endpoint is looked for only by a member whose search is on, that waits for
/// no join and does not reach the owner.
pub proof fn owners_are_looked_for(st: EngineState, s: Searching, hint: Option<Endpoint>, peers: Seq<Endpoint>)
    ensures
        engine_reconnect::fastpath_candidate(st, s, hint, peers) is Some ==> s.active
            && !s.join_waiting && !st.id.is_owner && !s.owner_healthy
            && engine_state::owner_endpoint_of(st.id@, st.routing.routes()) is Some,
        s.active && !s.join_waiting && !st.id.is_owner && !s.owner_healthy
            && engine_state::owner_endpoint_of(st.id@, st.routing.routes()) is Some
            ==> engine_reconnect::fastpath_candidate(st, s, hint, peers)
            == engine_ticks::lookalike_from(
            engine_state::owner_endpoint_of(st.id@, st.routing.routes())->0,
            hint,
            peers,
            0,
        ),
{
}

/// A peer is punched where its route is not active, or there is none.
pub proof fn who_is_punched(rt: routing::RoutingTable, ep: Endpoint)
    ensures
        !engine_ticks::punchable(rt, ep) <==> rt.vips().dom().contains(ep) && rt.routes().dom().contains(
            rt.vips()[ep],
        ) && rt.routes()[rt.vips()[ep]].state is Active,
{
}

/// Of what was heard before it was known what was asked, the answers are counted in their
/// order until two agree; that one is found, and where none does, the counts stay.
pub proof fn early_answers_are_counted(
    votes: Map<Seq<char>, u64>,
    answers: Seq<Option<PublicEndpoint>>,
    i: int,
)
    requires
        0 <= i <= answers.len(),
        forall|k: Seq<char>| #[trigger] votes.dom().contains(k) ==> votes[k] == 1,
    ensures
        ({
            let (v, hit) = engine_stun::tally(votes, answers, i);
            &&& hit matches Some(h) ==> i <= h < answers.len() && answers[h] is Some
            &&& hit is None ==> forall|k: Seq<char>| #[trigger] v.dom().contains(k) ==> v[k] == 1
            &&& hit matches Some(h) ==> ({
                let key = engine_stun::answer_text(answers[h]->0.ip@, answers[h]->0.port);
                v.dom().contains(key) && v[key] == 2
            })
        }),
    decreases answers.len() - i,
{
    if i < answers.len() {
        match answers[i] {
            None => early_answers_are_counted(votes, answers, i + 1),
            Some(e) => {
                let key = engine_stun::answer_text(e.ip@, e.port);
                let n = stun_votes::count_of(votes, key) + 1;
                let v = votes.insert(key, n as u64);
                if n < 2 {
                    assert(!votes.dom().contains(key));
                    assert forall|k: Seq<char>| #[trigger] v.dom().contains(k) implies v[k] == 1 by {
                        if k != key {
                            assert(votes.dom().contains(k));
                        }
                    }
                    early_answers_are_counted(v, answers, i + 1);
                }
            },
        }
    }
}

/// The endpoint that counts is that of the last query that found one.
pub proof fn last_finding_counts(out: Seq<(u64, Option<PublicEndpoint>)>)
    ensures
        engine_stun::last_found(out) is None <==> forall|i: int|
            0 <= i < out.len() ==> (#[trigger] out[i]).1 is None,
        engine_stun::last_found(out) is Some ==> exists|i: int|
            0 <= i < out.len() && (#[trigger] out[i]).1 == engine_stun::last_found(out)
                && forall|j: int| i < j < out.len() ==> (#[trigger] out[j]).1 is None,
    decreases out.len(),
{
    if out.len() > 0 {
        let n = out.len() - 1;
        assert(out[n] == out.last());
        if out.last().1 is None {
            let r = out.drop_last();
            last_finding_counts(r);
            if engine_stun::last_found(r) is Some {
                let i = choose|i: int|
                    0 <= i < r.len() && (#[trigger] r[i]).1 == engine_stun::last_found(r)
                        && forall|j: int| i < j < r.len() ==> (#[trigger] r[j]).1 is None;
                assert(out[i] == r[i]);
                assert forall|j: int| i < j < out.len() implies (#[trigger] out[j]).1 is None by {
                    if j < n {
                        assert(r[j] == out[j]);
                    }
                }
            } else {
                assert forall|i: int| 0 <= i < out.len() implies (#[trigger] out[i]).1 is None by {
                    if i < n {
                        assert(r[i] == out[i]);
                    }
                }
            }
        }
    }
}

/// A query is over when its time is, and what it found is what most servers said.
pub proof fn queries_end(q: (u64, QueryView), now: u64, r: Option<PublicEndpoint>)
    ensures
        engine_stun::in_time(q, now) <==> now < q.1.deadline,
        engine_stun::verdict(q.1, r) && q.1.votes.dom().len() > 0 && q.1.votes.dom().finite()
            ==> exists|k: Seq<char>| #[trigger]
            engine_stun::leads(q.1.votes, k) && engine_stun::reads(k, r),
{
}

/// A packet goes out where congestion control is off, there is no rate for its peer, it has
/// waited too long, the tokens cover it, or it is longer than tokens ever are and there are
/// some.
pub proof fn what_may_be_sent(on: bool, t: SendTerms)
    ensures
        !background_cc::sendable(on, t) <==> on && t.known && !t.waited && !t.covered && !(
        t.oversized && t.some_tokens),
{
}

/// A time in milliseconds is the nearest.
pub proof fn nearest_milliseconds(us: u64)
    ensures
        1000 * pacing_tick::nearest_ms(us) - us <= 500,
        us - 1000 * pacing_tick::nearest_ms(us) < 500,
{
}

/// A setting is brought into its range.
pub proof fn settings_in_range(v: int, lo: int, hi: int)
    requires
        lo <= hi,
    ensures
        lo <= pacing_defaults::clamped(v, lo, hi) <= hi,
        lo <= v <= hi ==> pacing_defaults::clamped(v, lo, hi) == v,
        v < lo ==> pacing_defaults::clamped(v, lo, hi) == lo,
        v > hi ==> pacing_defaults::clamped(v, lo, hi) == hi,
{
}

/// The clock's settings: a tick between a microsecond and a second, a window that is no
/// longer than a tick, and none where timers are to do alone. The clock slows down after
/// forty late ticks, if that is wanted and the queues are not drained.
pub proof fn clock_settings(cfg: NetworkConfig, tick: u64, spin: u64, st: ClockState, i: ClockInput)
    ensures
        1 <= pace_clock::tick_clamped(tick) <= 1_000_000,
        1 <= tick <= 1_000_000 ==> pace_clock::tick_clamped(tick) == tick,
        tick >= 1 ==> pace_clock::window_clamped(tick, spin) <= tick,
        spin <= tick ==> pace_clock::window_clamped(tick, spin) == spin,
        text::same_letters(text::trimmed(cfg.pace_clock_mode@), "hr"@) ==> pace_clock::window_of(
            cfg,
            tick,
        ) == 0,
        !text::same_letters(text::trimmed(cfg.pace_clock_mode@), "hr"@) && 0
            <= cfg.pace_spin_window_us <= tick ==> pace_clock::window_of(cfg, tick)
            == cfg.pace_spin_window_us,
        pace_clock::falls_back(st, i) <==> !i.apd_pure_spin && i.apply.fab_enabled
            && st.overshoot_streak >= 40,
{
}

/// How long until the paths are probed: a tick while a search is on, at least ten
/// milliseconds; else until the next probe is due, but no longer than the paths may rest.
pub proof fn probes_of_paths(tick: u64, raise: u64, fast: bool, due: u64, now: u64)
    requires
        1 <= raise <= 1_000_000_000_000_000,
        tick <= 1000 * raise,
    ensures
        ({
            let w = mtu_policy::probe_wait(tick, raise, fast, due, now);
            &&& fast && tick >= 10 ==> w == tick
            &&& fast && tick < 10 ==> w == 10
            &&& !fast ==> w <= 1000 * raise
            &&& !fast && tick >= 10 && now + tick <= due <= now + 1000 * raise ==> w == due - now
            &&& !fast && tick >= 10 && due <= now ==> w == tick
        }),
{
}

/// A pinned size is set at once, however short ago another one was; a size that is not pinned
/// is left alone.
pub proof fn pins_are_set_at_once(p: MtuPolicy, now: u64)
    ensures
        !p.pinned ==> p.pin_applied(now) == (false, p),
        p.pinned && p.adapter_name is Some && mtu_policy::safe_alias(p.adapter_name->0@) && p.min_mtu
            <= p.pinned_mtu() ==> p.pin_applied(now).0 && p.pin_applied(now).1.last_applied
            == p.pinned_mtu() && p.pin_applied(now).1.last_set_at == Some(now),
{
}

/// What of a text is read as bytes: each piece between dots that is a number up to 255, in
/// their order.
pub proof fn bytes_between_dots(pieces: Seq<Seq<char>>, n: nat)
    requires
        n <= pieces.len(),
    ensures
        claim::bytes_in(pieces, n) == pieces.take(n as int).filter(
            |p: Seq<char>| text::u8_of(p) is Some,
        ).map_values(|p: Seq<char>| text::u8_of(p)->0),
    decreases n,
{
    reveal(Seq::filter);
    let p = |p: Seq<char>| text::u8_of(p) is Some;
    let f = |p: Seq<char>| text::u8_of(p)->0;
    let t = pieces.take(n as int);
    if n == 0 {
        assert(t =~= Seq::<Seq<char>>::empty());
        assert(t.filter(p).map_values(f) =~= Seq::<u8>::empty());
    } else {
        bytes_between_dots(pieces, (n - 1) as nat);
        assert(t.drop_last() =~= pieces.take(n - 1));
        assert(t.last() == pieces[n - 1]);
        let rest = t.drop_last().filter(p);
        assert(rest.push(t.last()).map_values(f) =~= rest.map_values(f).push(f(t.last())));
    }
}

/// What others are told of claims: this node's own first, then those of others that did not
/// leave, none of them this node's, and no more than asked for.
pub proof fn own_claim_is_told_first(
    own: ClaimView,
    m: Map<Seq<char>, ClaimView>,
    tombs: Map<Seq<char>, MarkView>,
    now: u64,
    max: usize,
    start: usize,
    out: Seq<ClaimView>,
)
    requires
        claim_gossip::digest_done(own, m, tombs, now, max, start, out),
    ensures
        1 <= out.len() <= 1 + max,
        out[0] == own,
        forall|i: int|
            1 <= i < out.len() ==> m.dom().contains((#[trigger] out[i]).node_id) && out[i].node_id
                != own.node_id && m[out[i].node_id] == out[i] && !(tombs.dom().contains(
                out[i].node_id,
            ) && now < tombs[out[i].node_id].expires_at && out[i].vip_epoch
                <= tombs[out[i].node_id].vip_epoch),
{
    let v = choose|v: Seq<ClaimView>| #[trigger]
        claim_gossip::others_in_order(v, m, own.node_id, tombs, now) && out == seq![own]
            + claim_gossip::going_round(v, start as int, max as int);
    let g = claim_gossip::going_round(v, start as int, max as int);
    assert forall|i: int| 1 <= i < out.len() implies m.dom().contains((#[trigger] out[i]).node_id)
        && out[i].node_id != own.node_id && m[out[i].node_id] == out[i] && !(tombs.dom().contains(
        out[i].node_id,
    ) && now < tombs[out[i].node_id].expires_at && out[i].vip_epoch
        <= tombs[out[i].node_id].vip_epoch) by {
        let n = v.len() as int;
        let k = (start as int % n + (i - 1)) % n;
        assert(n > 0);
        assert(0 <= k < n) by (nonlinear_arith)
            requires
                n > 0,
                k == (start as int % n + (i - 1)) % n,
        ;
        assert(out[i] == g[i - 1]);
        assert(out[i] == v[k]);
        assert(claim_gossip::passed_on(m, own.node_id, tombs, now, v[k].node_id));
    }
}

/// The peers that are tried are those that were found, but for this node itself, those first
/// that were named last.
pub proof fn newest_peers_are_tried_first(v: Seq<Endpoint>, m: Map<Endpoint, u64>, own: Option<Endpoint>, i: int, j: int)
    requires
        decentralized::newest_first(v, m, own),
        0 <= i < j < v.len(),
    ensures
        m.dom().contains(v[i]) && m.dom().contains(v[j]),
        m[v[i]] >= m[v[j]],
        v[i] != v[j],
        own != Some(v[i]),
{
    assert(v.contains(v[i]) && v.contains(v[j]));
}

/// What is told outside of the routes that a sync brought: of each that was taken its
/// address, its endpoint and its name as the sync has them, in their order.
pub proof fn taken_routes_are_told(
    p: Peers,
    my: Seq<char>,
    prefix: u8,
    routes: Seq<MsynRoute>,
    n: nat,
    now: u64,
)
    requires
        n <= routes.len(),
    ensures
        ({
            let told = engine_routes::routes_told(p, my, prefix, routes, n, now);
            let taken = routes.take(n as int).filter(
                |r: MsynRoute| engine_routes::route_taken(my, prefix, r@),
            );
            &&& told.len() == taken.len()
            &&& forall|i: int|
                0 <= i < told.len() ==> Some((#[trigger] told[i]).vip) == taken[i]@.vip && Some(
                    told[i].ep,
                ) == taken[i]@.ep && told[i].node_id == taken[i]@.node_id
        }),
    decreases n,
{
    reveal(Seq::filter);
    let q = |r: MsynRoute| engine_routes::route_taken(my, prefix, r@);
    let t = routes.take(n as int);
    if n > 0 {
        taken_routes_are_told(p, my, prefix, routes, (n - 1) as nat, now);
        assert(t.drop_last() =~= routes.take(n - 1));
        assert(t.last() == routes[n - 1]);
        let a = t.drop_last().filter(q);
        let b = t.filter(q);
        let old_told = engine_routes::routes_told(p, my, prefix, routes, (n - 1) as nat, now);
        let told = engine_routes::routes_told(p, my, prefix, routes, n, now);
        assert forall|i: int| 0 <= i < told.len() implies Some((#[trigger] told[i]).vip)
            == b[i]@.vip && Some(told[i].ep) == b[i]@.ep && told[i].node_id == b[i]@.node_id by {
            if i < old_told.len() {
                assert(told[i] == old_told[i]);
                assert(b[i] == a[i]);
            }
        }
    } else {
        assert(t =~= Seq::<MsynRoute>::empty());
    }
}

/// The connection checks of a peer end where the owner is punched by it from the endpoint of
/// its route.
pub proof fn checks_end_with_a_punch(
    is_owner: bool,
    routes: Map<Seq<char>, routing::RouteView>,
    from: Endpoint,
    body: Seq<u8>,
)
    ensures
        engine_routes::checks_over(is_owner, routes, from, body) matches Some(n) ==> ({
            let v = engine_routes::body_vip(body);
            is_owner && v is Some && routes.dom().contains(v->0) && routes[v->0].endpoint == from
                && routes[v->0].node_id == n && n.len() > 0
        }),
        is_owner && engine_routes::body_vip(body) is Some && routes.dom().contains(
            engine_routes::body_vip(body)->0,
        ) && routes[engine_routes::body_vip(body)->0].endpoint == from
            && routes[engine_routes::body_vip(body)->0].node_id.len() > 0
            ==> engine_routes::checks_over(is_owner, routes, from, body) is Some,
{
}

/// The number of an address is that of its text; of a text that is no address it is zero.
pub proof fn numbers_of_addresses(a: u32, s: Seq<char>)
    ensures
        engine_state::vip_number(text::ipv4_text(a)) == a,
        text::ipv4_of(s) is None ==> engine_state::vip_number(s) == 0,
{
    text::ipv4_text_reads_back(a);
}

/// How often a search by chance draws: thirty-two times for each that is wanted, and 64 times
/// at least. The hosts that it draws ports of are those of the given endpoints.
pub proof fn draws_are_bounded(max: int, hosts: Seq<Endpoint>, base: Seq<Endpoint>, i: int)
    requires
        0 <= max * 32 <= usize::MAX,
    ensures
        max >= 2 ==> punch_targets::draw_limit(max) == 32 * max,
        max < 2 ==> punch_targets::draw_limit(max) == 64,
        punch_targets::hosts_of(hosts, base) && 0 <= i < hosts.len() ==> exists|j: int|
            0 <= j < base.len() && (#[trigger] base[j]).ip == hosts[i].ip,
        punch_targets::hosts_of(hosts, base) && 0 <= i < base.len() ==> hosts.contains(
            (Endpoint { ip: base[i].ip, port: 0 }),
        ),
{
    if punch_targets::hosts_of(hosts, base) && 0 <= i < hosts.len() {
        assert(hosts.contains(hosts[i]));
    }
    if punch_targets::hosts_of(hosts, base) && 0 <= i < base.len() {
        let h = Endpoint { ip: base[i].ip, port: 0 };
        assert(base[i].ip == h.ip);
    }
}

/// The names that interfaces can have: letters, digits, spaces and six marks.
pub proof fn letters_of_interface_names(c: char)
    ensures
        wire::alias_char('a') && wire::alias_char('Z') && wire::alias_char('5') && wire::alias_char(
            ' ',
        ),
        wire::alias_char(c) <==> (97 <= c as int <= 122) || (65 <= c as int <= 90) || (48 <= c as int
            <= 57) || c == ' ' || c == '_' || c == '-' || c == '.' || c == '(' || c == ')',
{
}

/// Whether a packet found room is told: it did where fewer packets than may wait for its
/// destination did.
pub proof fn full_lanes_are_told(
    v: PacerView,
    pkt: Vec<u8>,
    dest: Endpoint,
    rtt: Option<u32>,
    qd: Option<u32>,
    now: u64,
    kept: bool,
    w: PacerView,
)
    requires
        pacing_engine::enqueue_done(v, pkt, dest, rtt, qd, now, kept, w),
        queue_laws::told_apart(v),
    ensures
        ({
            let room = if v.cfg.max_data_queue_packets < 1 {
                1
            } else {
                v.cfg.max_data_queue_packets as int
            };
            kept <==> queue_laws::small_for(v, dest).len() + queue_laws::bulk_for(v, dest).len()
                < room
        }),
        w == pacing::enqueued(v, QueuedData { pkt, enqueued_at: now }, dest, rtt, qd),
{
    queue_laws::data_waits_behind_the_others(
        v,
        QueuedData { pkt, enqueued_at: now },
        dest,
        rtt,
        qd,
    );
    queue_laws::lane_is_there(v, dest);
}

/// The bytes that go out are those of the packet, whatever queue it came from.
pub proof fn bytes_that_go_out(out: Outgoing)
    ensures
        match out {
            Outgoing::Reserved { q, .. } => pacing_tick::bytes_of(out) == q.pkt@,
            Outgoing::Next(NextPacket::Control(q)) => pacing_tick::bytes_of(out) == q.pkt@,
            Outgoing::Next(NextPacket::Data { pkt, .. }) => pacing_tick::bytes_of(out) == pkt@,
        },
{
}

/// The endpoints that keepalives go to are those of the list.
pub proof fn keepalive_endpoints(s: EngineState, i: int)
    ensures
        0 <= i < outbound_udp::keepalive_list(s).len() ==> outbound_udp::keepalive_set(s).contains(
            outbound_udp::keepalive_list(s)[i].to,
        ),
        forall|e: Endpoint| #[trigger]
            outbound_udp::keepalive_set(s).contains(e) ==> exists|j: int|
                0 <= j < outbound_udp::keepalive_list(s).len() && (
                #[trigger] outbound_udp::keepalive_list(s)[j]).to == e,
{
    let l = outbound_udp::keepalive_list(s);
    if 0 <= i < l.len() {
        assert(l[i].to == l[i].to);
    }
}

/// Once it is known what a query asked, it is over where two early answers agree, with what
/// they say; else it waits with what was counted, and keeps no early answer.
pub proof fn queries_that_asked(
    s: Seq<(u64, QueryView)>,
    p: int,
    deadline: u64,
    early: Seq<Option<PublicEndpoint>>,
    after: Seq<(u64, QueryView)>,
    found: Option<PublicEndpoint>,
)
    requires
        0 <= p < s.len(),
        engine_stun::asked_at(s, p, deadline, early, after, found),
    ensures
        found is Some ==> after.len() == s.len() - 1 && after == s.remove(p) && exists|i: int|
            0 <= i < early.len() && (#[trigger] early[i]) is Some && early[i]->0.ip@ == found->0.ip@
                && early[i]->0.port == found->0.port,
        found is None ==> after.len() == s.len() && after[p].0 == s[p].0 && after[p].1.asked
            && after[p].1.deadline == deadline && after[p].1.early.len() == 0,
        found is None ==> forall|j: int| 0 <= j < s.len() && j != p ==> #[trigger] after[j] == s[j],
{
    let (votes, hit) = engine_stun::tally(s[p].1.votes, early, 0);
    tally_hits_inside(s[p].1.votes, early, 0);
    if let Some(i) = hit {
        assert(early[i] is Some);
    }
}

proof fn tally_hits_inside(votes: Map<Seq<char>, u64>, answers: Seq<Option<PublicEndpoint>>, i: int)
    requires
        0 <= i <= answers.len(),
    ensures
        engine_stun::tally(votes, answers, i).1 matches Some(h) ==> i <= h < answers.len(),
    decreases answers.len() - i,
{
    if i < answers.len() {
        match answers[i] {
            None => tally_hits_inside(votes, answers, i + 1),
            Some(e) => {
                let key = engine_stun::answer_text(e.ip@, e.port);
                let n = stun_votes::count_of(votes, key) + 1;
                tally_hits_inside(votes.insert(key, n as u64), answers, i + 1);
            },
        }
    }
}

/// What queries that are over found is told of each under its number, and what was found is
/// kept with the time.
pub proof fn findings_are_told(
    due: Seq<(u64, QueryView)>,
    out: Seq<(u64, Option<PublicEndpoint>)>,
    i: int,
    kept: Option<(u64, PublicEndpoint)>,
    e: PublicEndpoint,
    now: u64,
)
    requires
        engine_stun::concluded(due, out),
        0 <= i < due.len(),
    ensures
        out.len() == due.len(),
        out[i].0 == due[i].0,
        engine_stun::verdict(due[i].1, out[i].1),
        engine_stun::kept_as(kept, e, now) <==> kept is Some && (kept->0).0 == now && (kept->0
        ).1.ip@ == e.ip@ && (kept->0).1.port == e.port,
{
}

/// How many packets were sealed for a peer is counted for each by itself, from zero; the
/// address of a peer is that of its endpoint.
pub proof fn sealed_packets_are_counted(m: Map<u32, u64>, d: u32, s: EngineState, ep: Endpoint)
    ensures
        m.dom().contains(d) ==> engine_state::sent_to(m, d) == m[d],
        !m.dom().contains(d) ==> engine_state::sent_to(m, d) == 0,
        s.routing.vips().dom().contains(ep) ==> s.vip_number_at(ep) == text::ipv4_of(
            s.routing.vips()[ep],
        ),
        !s.routing.vips().dom().contains(ep) ==> s.vip_number_at(ep) is None,
{
}

/// The newest of the keys besides the primary one is the last.
pub proof fn newest_of_the_others(pool: CryptoPool)
    ensures
        pool.extras@.len() > 0 ==> pool.newest_extra() == Some(pool.extras@.last()),
        pool.extras@.len() == 0 ==> pool.newest_extra() is None,
{
}

/// What a search by chance finds has a port in range, of a host that was given, is new, and
/// no more than wanted; and it goes on until that is found or all draws are made.
pub proof fn searches_by_chance(
    out: Seq<Endpoint>,
    base: Seq<Endpoint>,
    covered: Set<Endpoint>,
    max: int,
    lo: u16,
    hi: u16,
    i: int,
)
    requires
        punch_targets::searched(out, base, covered, max, lo, hi),
        max >= 0,
        0 <= i < out.len(),
    ensures
        out.len() <= max,
        lo <= out[i].port <= hi,
        !covered.contains(out[i]),
        exists|j: int| 0 <= j < base.len() && (#[trigger] base[j]).ip == out[i].ip,
{
    let (hosts, ports): (Seq<Endpoint>, Seq<u16>) = choose|hosts: Seq<Endpoint>, ports: Seq<u16>|
        {
            &&& punch_targets::hosts_of(hosts, base)
            &&& out == #[trigger] punch_targets::residual(hosts, covered, max, ports)
            &&& forall|i: int| 0 <= i < ports.len() ==> lo <= #[trigger] ports[i] <= hi
            &&& ports.len() <= punch_targets::draw_limit(max)
            &&& out.len() >= max || ports.len() == punch_targets::draw_limit(max)
        };
    punch_targets::chance_finds_only_new(hosts, covered, max, ports);
    let h = Endpoint { ip: base[0].ip, port: 0 };
    assert(base[0].ip == h.ip);
    assert(hosts.contains(h));
    chance_keeps_to_hosts(hosts, covered, max, ports, lo, hi, i);
    let k = choose|k: int| 0 <= k < hosts.len() && (#[trigger] hosts[k]).ip == out[i].ip;
    assert(hosts.contains(hosts[k]));
}

proof fn chance_keeps_to_hosts(
    hosts: Seq<Endpoint>,
    covered: Set<Endpoint>,
    max: int,
    ports: Seq<u16>,
    lo: u16,
    hi: u16,
    i: int,
)
    requires
        hosts.len() > 0,
        forall|i: int| 0 <= i < ports.len() ==> lo <= #[trigger] ports[i] <= hi,
        0 <= i < punch_targets::residual(hosts, covered, max, ports).len(),
    ensures
        ({
            let e = punch_targets::residual(hosts, covered, max, ports)[i];
            &&& lo <= e.port <= hi
            &&& exists|k: int| 0 <= k < hosts.len() && (#[trigger] hosts[k]).ip == e.ip
        }),
    decreases ports.len(),
{
    if ports.len() > 0 {
        let r = punch_targets::residual(hosts, covered, max, ports.drop_last());
        if i < r.len() {
            assert forall|j: int| 0 <= j < ports.drop_last().len() implies lo
                <= #[trigger] ports.drop_last()[j] <= hi by {
                assert(ports[j] == ports.drop_last()[j]);
            }
            chance_keeps_to_hosts(hosts, covered, max, ports.drop_last(), lo, hi, i);
        } else {
            let n = hosts.len() as int;
            let k = (ports.len() - 1) % n;
            assert(0 <= k < n) by (nonlinear_arith)
                requires
                    n > 0,
                    k == (ports.len() - 1) % n,
            ;
            assert(hosts[k].ip == hosts[k].ip);
            assert(ports[ports.len() - 1] == ports.last());
        }
    }
}

/// What is tried exactly in a search is made of the peers that were found, but for this node,
/// and of the owner.
pub proof fn exact_targets(
    targets: Seq<Endpoint>,
    m: Map<Endpoint, u64>,
    own: Option<Endpoint>,
    hint: Option<Endpoint>,
    e: Endpoint,
)
    requires
        decentralized::exact_done(targets, m, own, hint),
    ensures
        targets.contains(e) ==> (m.dom().contains(e) && own != Some(e)) || hint == Some(e),
        hint matches Some(h) ==> targets.contains(h),
        targets.len() <= 65,
{
    let v = choose|v: Seq<Endpoint>| #[trigger]
        decentralized::newest_first(v, m, own) && targets == decentralized::exact(v, hint);
    let t = punch_targets::at_most(v, 64);
    if let Some(h) = hint {
        if !t.contains(h) {
            assert(targets[t.len() as int] == h);
        }
    }
    if targets.contains(e) {
        let i = choose|i: int| 0 <= i < targets.len() && targets[i] == e;
        if i < t.len() {
            assert(v[i] == e);
            assert(v.contains(e));
        }
    }
}

/// An attempt that is wanted begins, or rests, or waits for room.
pub proof fn wanted_attempts(pre: PunchView, post: PunchView, started: Seq<Reconnect>, n: Seq<char>, now: u64)
    requires
        engine_reconnect::begins_or_waits(pre, post, started, n, now),
        !punch_state::resting(pre.began, n, now),
        pre.running.contains(punch_state::peer_key(n)) || punch_state::peer_keys(
            post.running,
        ).len() < 4,
    ensures
        exists|i: int|
            0 <= i < started.len() && engine_reconnect::name_of(#[trigger] started[i]) == n,
{
}

/// A host that can be handed out is not this node's and not said to be taken.
pub proof fn hosts_that_are_taken<F: Fn(u32) -> bool>(f: F, my: u32, prefix: u8, h: int)
    ensures
        wire::host_addr(my, prefix, h) == my ==> wire::host_taken(f, my, prefix, h),
        call_ensures(f, (wire::host_addr(my, prefix, h),), true) ==> wire::host_taken(
            f,
            my,
            prefix,
            h,
        ),
        wire::host_taken(f, my, prefix, h) ==> wire::host_addr(my, prefix, h) == my
            || call_ensures(f, (wire::host_addr(my, prefix, h),), true),
{
}

/// A node claims an address where its claim says so.
pub proof fn who_claims_an_address(m: Map<Seq<char>, ClaimView>, vip: Seq<char>, k: Seq<char>)
    ensures
        claim_gossip::claims_vip(m, vip)(k) <==> m.dom().contains(k) && m[k].vip == vip,
{
}

} // verus!
