//! What holds of commands, of the engine's ticks, and of searches for peers.

use crate::addr::Endpoint;
use crate::engine_cmd;
use crate::engine_cmd::{CmdPlan, Engine, EngineCmd, PublicEndpoint};
use crate::engine_routes;
use crate::engine_routes::Peers;
use crate::engine_state;
use crate::engine_state::EngineState;
use crate::engine_stun;
use crate::engine_stun::QueryView;
use crate::engine_ticks;
use crate::engine_ticks::PendingPing;
use crate::mtu_policy::MtuPolicy;
use crate::outbound_udp;
use crate::punch_state;
use crate::punch_state::PunchView;
use crate::punch_targets;
use crate::routing;
use crate::stun_votes;
use crate::text;
use crate::wire::ControlTag;
use vstd::prelude::*;

verus! {

/// The number after a number is another one, and never zero.
pub proof fn numbers_go_on(n: u64)
    ensures
        engine_cmd::next_id(n) != n,
        engine_cmd::next_id(n) != 0,
        n < u64::MAX ==> engine_cmd::next_id(n) == n + 1,
{
}

/// The numbers from a place on are all different until all but zero were given out.
pub proof fn numbers_differ(start: u64, j: int, k: int)
    requires
        start >= 1,
        0 <= j < k < 0xffff_ffff_ffff_ffff,
    ensures
        engine_ticks::nth_id(start, j) != engine_ticks::nth_id(start, k),
        engine_ticks::nth_id(start, j) != 0,
        engine_ticks::nth_id(start, 0) == start,
        start + j <= u64::MAX ==> engine_ticks::nth_id(start, j) == start + j,
{
}

/// What an owner does with a member that it puts out: its route and the key of its endpoint
/// are gone, it is no longer served, and every other live member is owed the news. No other
/// route changes.
pub proof fn kicked_members_are_gone(pre: EngineState, post: EngineState, ep: Endpoint, vip: Seq<char>, other: Seq<char>)
    requires
        engine_cmd::kicked_out(pre, post, ep),
        pre.routing.vips().dom().contains(ep),
        pre.routing.vips()[ep] == vip,
        other != vip,
    ensures
        !post.routing.routes().dom().contains(vip),
        !post.crypto_keys.per_peer@.dom().contains(ep),
        !post.sync.peer_sync_state@.dom().contains(vip),
        pre.routing.routes().dom().contains(other) <==> post.routing.routes().dom().contains(other),
        pre.routing.routes().dom().contains(other) ==> post.routing.routes()[other]
            == pre.routing.routes()[other],
        pre.routing.routes().dom().contains(other) && !(pre.routing.routes()[other].state is Stale)
            ==> engine_state::owed_to(post.sync.peer_pending_removals@, other).contains(vip),
        engine_state::owed_to(post.sync.peer_pending_removals@, vip) == engine_state::owed_to(
            pre.sync.peer_pending_removals@,
            vip,
        ),
{
    assert(post.peers().routes == post.routing.routes());
    assert(post.peers().bound == post.crypto_keys.per_peer@);
    assert(post.peers().served == post.sync.peer_sync_state@);
    assert(engine_state::owed_to(post.sync.peer_pending_removals@, other)
        == engine_state::owed_to(post.sync.peer_pending_removals@, other));
}

/// Once the subnet is another one, exactly the routes of its hosts are left, as they were.
pub proof fn new_subnets_keep_their_hosts(p: Peers, my: u32, prefix: u8, vips: Seq<Seq<char>>, n: nat, v: Seq<char>)
    requires
        n <= vips.len(),
    ensures
        ({
            let q = engine_cmd::drained(p, my, prefix, vips, n);
            let looked_at = exists|i: int| 0 <= i < n && #[trigger] vips[i] == v;
            let host = text::ipv4_of(v) is Some && routing::in_same_subnet(
                my,
                text::ipv4_of(v)->0,
                prefix,
            );
            &&& q.routes.dom().contains(v) <==> p.routes.dom().contains(v) && !(looked_at && !host)
            &&& q.routes.dom().contains(v) ==> q.routes[v] == p.routes[v]
        }),
    decreases n,
{
    if n > 0 {
        new_subnets_keep_their_hosts(p, my, prefix, vips, (n - 1) as nat, v);
        if vips[n - 1] != v && exists|i: int| 0 <= i < n && #[trigger] vips[i] == v {
            let i = choose|i: int| 0 <= i < n && #[trigger] vips[i] == v;
            assert(0 <= i < n - 1 && vips[i] == v);
        }
        if vips[n - 1] == v {
            assert(0 <= n - 1 < n && vips[n - 1] == v);
        }
    }
}

/// The peers that are pinged and told are those whose route is not stale, in their order.
pub proof fn live_peers_are_pinged(s: Seq<(String, routing::RouteEntry)>)
    ensures
        engine_cmd::live_endpoints(s) == s.filter(
            |e: (String, routing::RouteEntry)| !(e.1.state is Stale),
        ).map_values(|e: (String, routing::RouteEntry)| e.1.endpoint),
        engine_ticks::retry_endpoints(s) == s.filter(
            |e: (String, routing::RouteEntry)| !(e.1.state is Active),
        ).map_values(|e: (String, routing::RouteEntry)| e.1.endpoint),
    decreases s.len(),
{
    reveal(Seq::filter);
    let p = |e: (String, routing::RouteEntry)| !(e.1.state is Stale);
    let q = |e: (String, routing::RouteEntry)| !(e.1.state is Active);
    let f = |e: (String, routing::RouteEntry)| e.1.endpoint;
    if s.len() == 0 {
        assert(s.filter(p).map_values(f) =~= Seq::<Endpoint>::empty());
        assert(s.filter(q).map_values(f) =~= Seq::<Endpoint>::empty());
    } else {
        live_peers_are_pinged(s.drop_last());
        let a = s.drop_last().filter(p);
        let b = s.drop_last().filter(q);
        assert(a.push(s.last()).map_values(f) =~= a.map_values(f).push(f(s.last())));
        assert(b.push(s.last()).map_values(f) =~= b.map_values(f).push(f(s.last())));
    }
}

/// A ratio is forced only where that is wanted, it turns the code on and a group has room for
/// it.
pub proof fn forced_ratios(data: u8, parity: u8, force: bool, max: int)
    ensures
        engine_cmd::forced(data, parity, force, max) is Some <==> force && data > 0 && parity > 0
            && data + parity <= max,
        engine_cmd::forced(data, parity, force, max) matches Some(r) ==> r == (data, parity),
{
}

/// A ping waits between fifty milliseconds and a minute.
pub proof fn pings_wait(ms: u64)
    ensures
        50 <= engine_cmd::ping_timeout(ms) <= 60_000,
        50 <= ms <= 60_000 ==> engine_cmd::ping_timeout(ms) == ms,
        ms < 50 ==> engine_cmd::ping_timeout(ms) == 50,
        ms > 60_000 ==> engine_cmd::ping_timeout(ms) == 60_000,
{
}

/// What a command to send hands on: the target, the bytes, and the tag of its kind.
#[verifier::rlimit(50)]
pub proof fn commands_to_send(pre: Engine, cmd: EngineCmd, now: u64, post: Engine, plan: CmdPlan)
    requires
        engine_cmd::cmd_done(pre, cmd, now, post, plan),
    ensures
        cmd matches EngineCmd::ParaSendHello { target, payload } ==> (plan matches CmdPlan::Send {
            to,
            tag,
            body,
        } && to == target && tag is ParaHello && body == payload),
        cmd matches EngineCmd::ParaSendReply { target, payload } ==> (plan matches CmdPlan::Send {
            to,
            tag,
            body,
        } && to == target && tag is ParaReply && body == payload),
        cmd matches EngineCmd::ParaSendOk { target, payload } ==> (plan matches CmdPlan::Send {
            to,
            tag,
            body,
        } && to == target && tag is ParaOk && body == payload),
        cmd matches EngineCmd::ParaSendPunchAck { target, payload } ==> (
        plan matches CmdPlan::Send { to, tag, body } && to == target && tag is ParaPunchAck && body
            == payload),
        cmd matches EngineCmd::SendPeerRelay { relay_ep, dst_node, kind } ==> (
        plan matches CmdPlan::Relay { to, msg } && to == relay_ep && msg.dst_node == dst_node
            && msg.kind == kind && msg.src_node@ == pre.state.id.my_node_id@ && msg.ttl == 2),
        cmd matches EngineCmd::ManualPunch { target, count } ==> (plan matches CmdPlan::Punch {
            target: t,
            count: c,
            pause_ms,
        } && t == target && c == count && pause_ms == 50),
        cmd matches EngineCmd::PingPeer { dest, timeout_ms } ==> (plan matches CmdPlan::PingPeer {
            dest: d,
            timeout_ms: t,
        } && d == dest && 50 <= t <= 60_000),
        cmd matches EngineCmd::Kick(ep) ==> (plan matches CmdPlan::Kick { ep: e, .. } && e == ep),
        cmd is Shutdown ==> plan is Stop,
{
    reveal(engine_cmd::cmd_done);
}

/// Only commands that are about peers, keys or this node change the session, and only those
/// about redundancy, the adapter or listeners change what belongs to these.
#[verifier::rlimit(50)]
pub proof fn commands_keep_to_their_own(pre: Engine, cmd: EngineCmd, now: u64, post: Engine, plan: CmdPlan)
    requires
        engine_cmd::cmd_done(pre, cmd, now, post, plan),
    ensures
        !(cmd is SetFecEnabled || cmd is SetFecConfig || cmd is ApplyAdvancedTuning) ==> post.fec
            == pre.fec,
        !(cmd is SetRawPerf) ==> post.rawperf == pre.rawperf,
        !(cmd is SetCandidates || cmd is ResetSession) ==> post.candidates == pre.candidates,
        !(cmd is ParaSetListener || cmd is ParaRemoveListener) ==> post.para_listeners
            == pre.para_listeners,
        !(cmd is QueryPublicEndpoint) ==> post.public_ep == pre.public_ep && post.stun_queries
            == pre.stun_queries,
        !(cmd is SetPeerKeepalive || cmd is StopPeerKeepalive || cmd is ResetSession
            || cmd is Shutdown) ==> post.keepalives == pre.keepalives,
        !(cmd is SetAdapterName || cmd is SetMtuPin || cmd is SetCryptoKey || cmd is AddCryptoKey
            || cmd is PrepareJoin) ==> post.mtu == pre.mtu,
        cmd is PingAll || cmd is ManualPunch || cmd is SetPaceClock || cmd is SetPacing || cmd
            is SetPacingAndPaceClock || cmd is SetDrrEnabled || cmd is BroadcastMsmd || cmd
            is TriggerMembershipBroadcast || cmd is PingPeer || cmd is QueryOwnerSendEndpoint || cmd
            is SendPeerRelay || cmd is ParaSendHello || cmd is ParaSendReply || cmd is ParaSendOk
            || cmd is ParaSendPunchAck || cmd is SetSocketBuffers ==> post == pre,
        !pre.state.id.is_owner && cmd is Kick ==> post == pre,
{
    reveal(engine_cmd::cmd_done);
}

/// What commands about redundancy set, and nothing else of it.
#[verifier::rlimit(50)]
pub proof fn redundancy_commands(pre: Engine, cmd: EngineCmd, now: u64, post: Engine, plan: CmdPlan)
    requires
        engine_cmd::cmd_done(pre, cmd, now, post, plan),
    ensures
        cmd matches EngineCmd::SetFecEnabled(on) ==> post.fec.enabled == on && post.fec.forced_ratio
            == pre.fec.forced_ratio && post.fec.max_total == pre.fec.max_total && (plan is FecOff
            <==> pre.fec.enabled && !on) && (plan is FecOn <==> !pre.fec.enabled && on),
        cmd matches EngineCmd::SetFecConfig { data_shards, parity_shards, force_ratio } ==> plan
            is FecFlush && post.fec.enabled == pre.fec.enabled && (post.fec.forced_ratio is Some
            <==> force_ratio && data_shards > 0 && parity_shards > 0 && data_shards + parity_shards
            <= pre.fec.max_total) && (post.fec.forced_ratio is Some ==> post.fec.forced_ratio->0
            == (data_shards, parity_shards)),
        cmd matches EngineCmd::ApplyAdvancedTuning { max_total_shards, .. } ==> post.fec.max_total
            == max_total_shards && post.fec.enabled == pre.fec.enabled,
{
    reveal(engine_cmd::cmd_done);
}

/// The public endpoint is given out where it is known and not too old; else a query starts,
/// under a number of its own, unless too many run.
#[verifier::rlimit(50)]
pub proof fn public_endpoints_are_asked_for(
    pre: Engine,
    force_refresh: bool,
    ttl_ms: u64,
    max_pending: usize,
    now: u64,
    post: Engine,
    plan: CmdPlan,
)
    requires
        engine_cmd::cmd_done(
            pre,
            EngineCmd::QueryPublicEndpoint { force_refresh, ttl_ms, max_pending },
            now,
            post,
            plan,
        ),
    ensures
        force_refresh ==> plan !is PublicEndpointKnown && post.public_ep is None,
        pre.public_ep is None ==> plan !is PublicEndpointKnown,
        !force_refresh && pre.public_ep is Some && now - (pre.public_ep->0).0 <= ttl_ms ==> plan
            is PublicEndpointKnown && post == pre,
        plan matches CmdPlan::PublicEndpointKnown(e) ==> pre.public_ep is Some && e.ip@ == (
        pre.public_ep->0).1.ip@ && e.port == (pre.public_ep->0).1.port,
        plan matches CmdPlan::StartQuery { id } ==> id == pre.next_stun_query_id
            && post.next_stun_query_id != id && post.stun_queries@.dom().contains(id)
            && pre.stun_queries@.dom().len() < max_pending,
        plan is TooManyQueries ==> post.stun_queries == pre.stun_queries
            && pre.stun_queries@.dom().len() >= max_pending,
        plan is PublicEndpointKnown || plan is StartQuery || plan is TooManyQueries,
{
    reveal(engine_cmd::cmd_done);
}

/// The events that are kept are those that are not too old, and all that came after one that
/// is not.
pub proof fn young_events_are_kept(s: Seq<(u64, String)>, now: u64, ttl: u64)
    ensures
        ({
            let t = engine_ticks::unexpired(s, now, ttl);
            let k = s.len() - t.len();
            &&& t.len() <= s.len()
            &&& t == s.subrange(k, s.len() as int)
            &&& forall|i: int|
                0 <= i < k ==> engine_state::elapsed(now, (#[trigger] s[i]).0) >= ttl
            &&& t.len() > 0 ==> engine_state::elapsed(now, t[0].0) < ttl
        }),
    decreases s.len(),
{
    if s.len() > 0 && engine_state::elapsed(now, s[0].0) >= ttl {
        let r = s.drop_first();
        young_events_are_kept(r, now, ttl);
        let t = engine_ticks::unexpired(s, now, ttl);
        let k = s.len() - t.len();
        assert(t =~= s.subrange(k, s.len() as int));
        assert forall|i: int| 0 <= i < k implies engine_state::elapsed(now, (#[trigger] s[i]).0)
            >= ttl by {
            if i > 0 {
                assert(r[i - 1] == s[i]);
            }
        }
    } else {
        assert(s =~= s.subrange(0, s.len() as int));
    }
}

/// Of a list that is too long the last ones stay, in their order.
pub proof fn last_ones_stay<T>(s: Seq<T>, n: int)
    requires
        n >= 0,
    ensures
        engine_ticks::last_n(s, n).len() <= n,
        s.len() <= n ==> engine_ticks::last_n(s, n) == s,
        s.len() > n ==> engine_ticks::last_n(s, n).len() == n && forall|i: int|
            0 <= i < n ==> engine_ticks::last_n(s, n)[i] == s[s.len() - n + i],
{
}

/// An answer belongs to a ping that went to its sender: to the same endpoint, or, where only
/// the address counts, to the same address.
pub proof fn answers_belong_to_pings(p: PendingPing, from: Endpoint)
    ensures
        !p.allow_ip_match ==> (engine_ticks::answers(p, from) <==> p.dest.ip == from.ip
            && p.dest.port == from.port),
        p.allow_ip_match ==> (engine_ticks::answers(p, from) <==> p.dest.ip == from.ip),
{
}

/// The endpoint that is taken for the owner's new one is the first that differs from the one
/// known and has its address, or that of the hint.
pub proof fn first_lookalike(
    current: Endpoint,
    hint: Option<Endpoint>,
    peers: Seq<Endpoint>,
    i: int,
)
    requires
        0 <= i <= peers.len(),
    ensures
        match engine_ticks::lookalike_from(current, hint, peers, i) {
            Some(e) => exists|k: int|
                i <= k < peers.len() && #[trigger] peers[k] == e && e != current && (e.ip
                    == current.ip || (hint is Some && e.ip == hint->0.ip)) && forall|j: int|
                    i <= j < k ==> !engine_ticks::owner_lookalike(current, hint, #[trigger] peers[j]),
            None => forall|j: int|
                i <= j < peers.len() ==> (#[trigger] peers[j]) == current || (peers[j].ip
                    != current.ip && (hint is None || peers[j].ip != hint->0.ip)),
        },
    decreases peers.len() - i,
{
    if i < peers.len() {
        if engine_ticks::owner_lookalike(current, hint, peers[i]) {
            assert(peers[i] == engine_ticks::lookalike_from(current, hint, peers, i)->0);
        } else {
            first_lookalike(current, hint, peers, i + 1);
            if let Some(e) = engine_ticks::lookalike_from(current, hint, peers, i + 1) {
                let k = choose|k: int|
                    i + 1 <= k < peers.len() && #[trigger] peers[k] == e && e != current && (e.ip
                        == current.ip || (hint is Some && e.ip == hint->0.ip)) && forall|j: int|
                        i + 1 <= j < k ==> !engine_ticks::owner_lookalike(
                            current,
                            hint,
                            #[trigger] peers[j],
                        );
                assert(i <= k < peers.len() && peers[k] == e);
            }
        }
    }
}

/// Of the endpoints that were found, eight at most are looked at, the first ones, and never
/// the owner's.
pub proof fn few_are_looked_at(peers: Seq<Endpoint>, owner: Option<Endpoint>)
    ensures
        ({
            let s = engine_ticks::looked_at(peers, owner);
            let others = peers.filter(|e: Endpoint| owner != Some(e));
            &&& s.len() <= 8
            &&& s == if others.len() > 8 {
                others.take(8)
            } else {
                others
            }
        }),
    decreases peers.len(),
{
    reveal(Seq::filter);
    let p = |e: Endpoint| owner != Some(e);
    if peers.len() > 0 {
        few_are_looked_at(peers.drop_last(), owner);
        let a = peers.drop_last().filter(p);
        let b = peers.filter(p);
        if b.len() > 8 {
            if a.len() >= 8 && b.len() > a.len() {
                assert(b.take(8) =~= a.take(8));
                assert(a.len() == 8 ==> a.take(8) =~= a);
            }
        }
    }
}

/// Two servers that say the same decide; one alone does not.
pub proof fn two_answers_decide(q: QueryView, key: Seq<char>)
    requires
        forall|k: Seq<char>| #[trigger] q.votes.dom().contains(k) ==> 1 <= q.votes[k] <= 1,
    ensures
        engine_stun::decides(q, key) <==> q.votes.dom().contains(key),
        engine_stun::voted(q, key).votes.dom().contains(key),
        engine_stun::voted(q, key).votes[key] == if q.votes.dom().contains(key) {
            2
        } else {
            1int
        },
        forall|o: Seq<char>|
            o != key ==> (#[trigger] engine_stun::voted(q, key).votes.dom().contains(o)
                <==> q.votes.dom().contains(o)) && engine_stun::voted(q, key).votes[o]
                == q.votes[o],
        engine_stun::voted(q, key).asked == q.asked && engine_stun::voted(q, key).deadline
            == q.deadline && engine_stun::voted(q, key).early == q.early,
{
}

/// An answer counts for the first query to which it belongs; the queries before it that have
/// not asked yet keep it, up to thirty-two, and those behind it do not see it.
pub proof fn answers_count_once(
    s: Seq<(u64, QueryView)>,
    answers: Map<u64, PublicEndpoint>,
    buf: Seq<u8>,
    j: int,
)
    requires
        0 <= j < s.len(),
    ensures
        ({
            let t = engine_stun::told(s, answers, buf);
            let f = engine_stun::counting_from(s, answers, 0);
            &&& t.len() == s.len()
            &&& t[j].0 == s[j].0
            &&& 0 <= f <= s.len()
            &&& f < s.len() ==> s[f].1.asked && answers.dom().contains(s[f].0)
            &&& j < f ==> !(s[j].1.asked && answers.dom().contains(s[j].0))
            &&& j < f && !s[j].1.asked && s[j].1.early.len() < 32 ==> t[j].1.early
                == s[j].1.early.push(buf) && t[j].1.votes == s[j].1.votes
            &&& j < f && (s[j].1.asked || s[j].1.early.len() >= 32) ==> t[j] == s[j]
            &&& j > f ==> t[j] == s[j]
        }),
{
    first_that_counts(s, answers, 0);
}

proof fn first_that_counts(s: Seq<(u64, QueryView)>, answers: Map<u64, PublicEndpoint>, i: int)
    requires
        0 <= i <= s.len(),
    ensures
        ({
            let f = engine_stun::counting_from(s, answers, i);
            &&& i <= f <= s.len()
            &&& f < s.len() ==> engine_stun::counts(s[f], answers)
            &&& forall|k: int| i <= k < f ==> !engine_stun::counts(#[trigger] s[k], answers)
        }),
    decreases s.len() - i,
{
    if i < s.len() && !engine_stun::counts(s[i], answers) {
        first_that_counts(s, answers, i + 1);
    }
}

/// The ports that are tried around a port are those next to it, one after the other, itself
/// among them; none is zero.
pub proof fn ports_around_a_port(ep: Endpoint, width: int)
    requires
        ep.port >= 1,
        width >= 1,
    ensures
        ({
            let s = punch_targets::scanned(ep, width);
            &&& 1 <= s.len() <= width
            &&& forall|i: int|
                0 <= i < s.len() ==> (#[trigger] s[i]).ip == ep.ip && s[i].port == s[0].port + i
                    && s[i].port >= 1
            &&& s[0].port <= ep.port < s[0].port + s.len()
            &&& s[0].port > 1 ==> ep.port - s[0].port == width / 2
            &&& s.len() < width ==> s[0].port + s.len() == 0x10000
        }),
{
}

/// The more peers there are, the fewer ports of each are tried: as many as go into the whole,
/// but within what is set.
pub proof fn widths_are_shared(count: int, whole: int, lo: int, hi: int)
    requires
        count >= 1,
        whole >= 1,
        1 <= lo <= hi,
    ensures
        ({
            let w = punch_targets::wide_width(count, whole, lo, hi);
            &&& lo <= w <= hi
            &&& lo <= whole / count <= hi ==> w == whole / count
            &&& whole / count < lo ==> w == lo
            &&& whole / count > hi ==> w == hi
        }),
{
}

/// A peer rests for thirty seconds after an attempt, and four peers at most are tried at the
/// same time.
pub proof fn attempts_are_spaced(began: Map<Seq<char>, u64>, running: Set<Seq<char>>, n: Seq<char>, now: u64)
    ensures
        !began.dom().contains(n) ==> !punch_state::resting(began, n, now),
        began.dom().contains(n) && began[n] <= now ==> (punch_state::resting(began, n, now) <==> now
            - began[n] < 30_000),
        punch_state::has_room(running, n) <==> running.contains(punch_state::peer_key(n))
            || punch_state::peer_keys(running).len() < 4,
{
}

/// What ends with a search, with a join and with the attempts to reach peers.
pub proof fn what_ends(p: PunchView)
    ensures
        ({
            let q = punch_state::search_restarted(p);
            &&& !q.running.contains("decentralized"@)
            &&& !q.running.contains("decentralized-reconnect-fastpath"@)
            &&& q.began == p.began && q.announced == p.announced
            &&& q.fastpath.last_ep is None && q.fastpath.last_at is None
        }),
        ({
            let q = punch_state::join_done(p);
            &&& !q.running.contains("decentralized-join-overlay"@)
            &&& !q.running.contains("decentralized-reconnect-fastpath"@)
            &&& q.announced == Set::<Endpoint>::empty()
            &&& q.began == p.began && q.fastpath == p.fastpath
        }),
        punch_state::peers_stopped(p).began == Map::<Seq<char>, u64>::empty(),
        forall|n: Seq<char>| !#[trigger]
            punch_state::peers_stopped(p).running.contains(punch_state::peer_key(n)),
{
    assert forall|n: Seq<char>| !#[trigger]
        punch_state::peers_stopped(p).running.contains(punch_state::peer_key(n)) by {
        punch_state::peer_keys_differ(n, n);
    }
}

/// The size of packets is set only to one that is allowed and another one; at once where it
/// is the first or differs by thirty-two bytes, else after thirty seconds. Without an adapter
/// nothing is set.
pub proof fn sizes_are_set(p: MtuPolicy, mtu: u16, now: u64)
    ensures
        ({
            let (set, q) = p.applied(mtu, now);
            &&& set ==> p.adapter_name is Some && p.min_mtu <= mtu <= 1500 && q.last_applied == mtu
                && q.last_set_at == Some(now) && (p.last_applied == 0 || mtu != p.last_applied)
            &&& set && p.last_applied != 0 && p.last_set_at is Some ==> mtu >= p.last_applied + 32
                || mtu + 32 <= p.last_applied || now - p.last_set_at->0 >= 30_000
            &&& !set ==> q.last_set_at == p.last_set_at && (q.last_applied == p.last_applied
                || p.adapter_name is None)
            &&& q.pinned == p.pinned && q.configured == p.configured && q.adapter_name
                == p.adapter_name && q.min_mtu == p.min_mtu
            &&& 576 <= p.pinned_mtu() <= 1500
            &&& 576 <= p.configured <= 1500 ==> p.pinned_mtu() == p.configured
        }),
{
}

/// Keepalives go along every route that is not stale, and to the owner where no route leads
/// there; only the owner is asked for an answer then.
pub proof fn keepalives_go_everywhere(s: EngineState, i: int)
    ensures
        ({
            let list = outbound_udp::keepalive_list(s);
            let live = engine_cmd::live_endpoints(s.routing.table.entries@);
            let owner = engine_state::owner_endpoint_of(s.id@, s.routing.routes());
            let extra = owner is Some && !s.routing.vips().dom().contains(owner->0);
            &&& list.len() == live.len() + if extra {
                1int
            } else {
                0int
            }
            &&& 0 <= i < live.len() ==> list[i].to == live[i] && !list[i].hol
            &&& extra ==> list.last().to == owner->0 && list.last().hol
        }),
{
}

/// How a number is written: its digits, the last of which is what is left by ten.
pub proof fn numbers_are_written(n: int)
    requires
        n >= 0,
    ensures
        text::all_digits(engine_stun::number_text(n)),
        text::dec_value(engine_stun::number_text(n)) == n,
        engine_stun::number_text(n).len() >= 1,
        engine_stun::number_text(n).len() > 1 ==> engine_stun::number_text(n)[0] != '0',
    decreases n,
{
    reveal_with_fuel(text::dec_value, 2);
    let s = engine_stun::number_text(n);
    if n >= 10 {
        let t = engine_stun::number_text(n / 10);
        numbers_are_written(n / 10);
        assert(s.drop_last() =~= t);
        assert forall|i: int| 0 <= i < s.len() implies text::is_digit(#[trigger] s[i]) by {
            if i < t.len() {
                assert(text::is_digit(t[i]));
                assert(s[i] == t[i]);
            }
        }
        assert(s[0] == t[0]);
        if t.len() == 1 {
            assert(n / 10 < 10) by {
                if n / 10 >= 10 {
                    numbers_are_written(n / 10 / 10);
                }
            }
            assert(t[0] == text::digit_char(n / 10));
        }
    } else {
        assert(s.drop_last() =~= Seq::<char>::empty());
        assert(text::dec_value(Seq::<char>::empty()) == 0);
    }
}

/// Of the routes outside of a new subnet the peers are told of, each by its address and its
/// name, in their order, and no other.
pub proof fn routes_outside_are_told(
    routes: Map<Seq<char>, routing::RouteView>,
    my: u32,
    prefix: u8,
    vips: Seq<Seq<char>>,
    n: nat,
)
    requires
        n <= vips.len(),
    ensures
        ({
            let told = engine_cmd::goners(routes, my, prefix, vips, n);
            let out = vips.take(n as int).filter(|v: Seq<char>| engine_cmd::outside(my, prefix, v));
            &&& told.len() == out.len()
            &&& forall|i: int|
                0 <= i < told.len() ==> (#[trigger] told[i]).vip == out[i] && told[i].vip_u32
                    == text::ipv4_of(out[i]) && (routes.dom().contains(out[i])
                    && routes[out[i]].node_id.len() > 0 ==> told[i].node_id == Some(
                    routes[out[i]].node_id,
                ))
        }),
    decreases n,
{
    reveal(Seq::filter);
    let p = |v: Seq<char>| engine_cmd::outside(my, prefix, v);
    let t = vips.take(n as int);
    if n > 0 {
        routes_outside_are_told(routes, my, prefix, vips, (n - 1) as nat);
        assert(t.drop_last() =~= vips.take(n - 1));
        assert(t.last() == vips[n - 1]);
        let a = t.drop_last().filter(p);
        let b = t.filter(p);
        let r = engine_cmd::goners(routes, my, prefix, vips, (n - 1) as nat);
        let told = engine_cmd::goners(routes, my, prefix, vips, n);
        assert forall|i: int| 0 <= i < told.len() implies (#[trigger] told[i]).vip == b[i]
            && told[i].vip_u32 == text::ipv4_of(b[i]) && (routes.dom().contains(b[i])
            && routes[b[i]].node_id.len() > 0 ==> told[i].node_id == Some(routes[b[i]].node_id)) by {
            if i < r.len() {
                assert(told[i] == r[i]);
                assert(b[i] == a[i]);
            }
        }
    } else {
        assert(t =~= Seq::<Seq<char>>::empty());
    }
}

/// An address that no text is read as, or that is of another subnet, is outside.
pub proof fn what_is_outside(my: u32, prefix: u8, vip: Seq<char>)
    ensures
        !engine_cmd::outside(my, prefix, vip) <==> text::ipv4_of(vip) is Some
            && routing::in_same_subnet(my, text::ipv4_of(vip)->0, prefix),
{
}

/// A member that goes to an owner sends there from then on, though the owner has not
/// confirmed it: its endpoint is known, and where both addresses are, its route leads there.
pub proof fn owners_are_aimed_at(pre: EngineState, post: EngineState, owner: Endpoint, now: u64)
    requires
        engine_cmd::owner_aimed(pre, post, owner, now),
    ensures
        post.id.owner_ep == Some(owner) && !post.id.owner_ep_trusted,
        post.id.my_vip@ == pre.id.my_vip@ && post.id.is_owner == pre.id.is_owner,
        pre.id.owner_vip_cached@.len() > 0 && pre.id.my_vip@.len() > 0
            ==> post.routing.routes().dom().contains(pre.id.owner_vip_cached@)
            && post.routing.routes()[pre.id.owner_vip_cached@].endpoint == owner,
        pre.id.owner_vip_cached@.len() > 0 && pre.id.my_vip@.len() > 0
            && pre.routing.routes().dom().contains(pre.id.owner_vip_cached@)
            ==> engine_cmd::owner_was(pre) == Some(
            pre.routing.routes()[pre.id.owner_vip_cached@].endpoint,
        ),
        pre.id.owner_vip_cached@.len() == 0 || pre.id.my_vip@.len() == 0
            ==> post.routing.routes() == pre.routing.routes() && engine_cmd::owner_was(pre) is None,
{
    assert(post.peers().routes == post.routing.routes());
    assert(pre.peers().routes == pre.routing.routes());
    assert(post.id@.owner_ep == Some(owner));
    assert(post.id@.my_vip == pre.id@.my_vip);
}

/// The numbers of queries that are over are free again, and no others.
pub proof fn numbers_of_ended_queries(m: Map<u64, ()>, out: Seq<(u64, Option<PublicEndpoint>)>, id: u64)
    ensures
        engine_stun::without_ids(m, out).dom().contains(id) <==> m.dom().contains(id) && forall|i: int|
            0 <= i < out.len() ==> (#[trigger] out[i]).0 != id,
    decreases out.len(),
{
    if out.len() > 0 {
        let r = out.drop_last();
        numbers_of_ended_queries(m, r, id);
        assert(out[out.len() - 1] == out.last());
        if forall|i: int| 0 <= i < r.len() ==> (#[trigger] r[i]).0 != id {
            if out.last().0 != id {
                assert forall|i: int| 0 <= i < out.len() implies (#[trigger] out[i]).0 != id by {
                    if i < r.len() {
                        assert(r[i] == out[i]);
                    }
                }
            }
        } else {
            let i = choose|i: int| 0 <= i < r.len() && (#[trigger] r[i]).0 == id;
            assert(out[i].0 == id);
        }
    }
}

/// An answer is of use where it counts for a query, or one that has not asked yet has room
/// for it; and it ends a query where it is the second of its kind there.
pub proof fn answers_of_use(s: Seq<(u64, QueryView)>, answers: Map<u64, PublicEndpoint>)
    ensures
        engine_stun::taken(s, answers) <==> exists|i: int|
            0 <= i < s.len() && ((#[trigger] s[i]).1.asked && answers.dom().contains(s[i].0)
                || !s[i].1.asked && s[i].1.early.len() < 32),
        engine_stun::decided_by(s, answers) matches Some(f) ==> 0 <= f < s.len() && s[f].1.asked
            && answers.dom().contains(s[f].0) && engine_stun::decides(
            s[f].1,
            engine_stun::answer_text(answers[s[f].0].ip@, answers[s[f].0].port),
        ),
{
    first_that_counts(s, answers, 0);
    let f = engine_stun::counting_from(s, answers, 0);
    if f < s.len() {
        assert(s[f].1.asked && answers.dom().contains(s[f].0));
    }
    if exists|i: int|
        0 <= i < s.len() && ((#[trigger] s[i]).1.asked && answers.dom().contains(s[i].0)
            || !s[i].1.asked && s[i].1.early.len() < 32) {
        let i = choose|i: int|
            0 <= i < s.len() && ((#[trigger] s[i]).1.asked && answers.dom().contains(s[i].0)
                || !s[i].1.asked && s[i].1.early.len() < 32);
        if s[i].1.asked {
            if f > i {
                assert(!engine_stun::counts(s[i], answers));
            }
        } else {
            assert(engine_stun::room_at(s[i]));
        }
    }
    if exists|j: int| 0 <= j < s.len() && engine_stun::room_at(#[trigger] s[j]) {
        let j = choose|j: int| 0 <= j < s.len() && engine_stun::room_at(#[trigger] s[j]);
        assert(!s[j].1.asked && s[j].1.early.len() < 32);
    }
}

/// How many pings are for recoveries.
pub proof fn recovery_pings_are_counted(s: Seq<(u64, PendingPing)>)
    ensures
        engine_ticks::heal_pings(s) == s.filter(
            |e: (u64, PendingPing)| e.1.kind is Heal,
        ).len(),
    decreases s.len(),
{
    reveal(Seq::filter);
    if s.len() > 0 {
        recovery_pings_are_counted(s.drop_last());
    }
}

/// An endpoint that was found stands for a peer where the peer is the only one at its
/// address, neither this node nor the owner; and it is tried unless the peer's route is
/// active there.
pub proof fn whose_endpoint_it_is(
    rt: routing::RoutingTable,
    my: Seq<char>,
    owner: Seq<char>,
    ep: Endpoint,
    vip: Seq<char>,
)
    ensures
        engine_ticks::tried_for(rt, my, owner, ep, vip) ==> exists|i: int|
            0 <= i < rt.table.entries@.len() && (#[trigger] rt.table.entries@[i]).0@ == vip && vip
                != my && vip != owner && rt.table.entries@[i].1.endpoint.ip == ep.ip && forall|j: int|
                0 <= j < rt.table.entries@.len() && j != i ==> (
                #[trigger] rt.table.entries@[j]).0@ == my || rt.table.entries@[j].0@ == owner
                    || rt.table.entries@[j].1.endpoint.ip != ep.ip,
        engine_ticks::tried_for(rt, my, owner, ep, vip) && rt.routes().dom().contains(vip)
            ==> rt.routes()[vip].state !is Active || rt.routes()[vip].endpoint != ep,
        engine_ticks::tried_unbound(rt, my, owner, ep) ==> !engine_ticks::tried_for(
            rt,
            my,
            owner,
            ep,
            vip,
        ),
{
    let s = rt.table.entries@;
    if engine_ticks::tried_for(rt, my, owner, ep, vip) {
        let i = choose|i: int|
            0 <= i < s.len() && vip == s[i].0@ && #[trigger] engine_ticks::only_peer_at(
                s,
                my,
                owner,
                ep.ip,
                i,
            );
        assert(engine_ticks::peer_at_ip(s[i], my, owner, ep.ip));
        assert forall|j: int| 0 <= j < s.len() && j != i implies (#[trigger] s[j]).0@ == my
            || s[j].0@ == owner || s[j].1.endpoint.ip != ep.ip by {
            assert(!engine_ticks::peer_at_ip(s[j], my, owner, ep.ip));
        }
        assert(s[i].0@ == vip);
    }
}

/// What was sent to other destinations than keepalives go to is forgotten, and nothing else.
pub proof fn destinations_are_forgotten(sent: Map<Endpoint, u64>, keep: Set<Endpoint>, e: Endpoint, now: u64, pause: u64)
    ensures
        outbound_udp::kept(sent, keep).dom().contains(e) <==> sent.dom().contains(e) && keep.contains(
            e,
        ),
        outbound_udp::kept(sent, keep).dom().contains(e) ==> outbound_udp::kept(sent, keep)[e]
            == sent[e],
        !sent.dom().contains(e) ==> outbound_udp::quiet(sent, e, now, pause),
        sent.dom().contains(e) && sent[e] <= now ==> (outbound_udp::quiet(sent, e, now, pause)
            <==> now - sent[e] >= pause),
{
}

/// The second stage of a search tries the ports around each endpoint, as wide as the number
/// of endpoints allows, and none where there are no endpoints.
pub proof fn second_stage(base: Seq<Endpoint>, punch: punch_targets::HolePunchTuning)
    ensures
        base.len() == 0 ==> punch_targets::stage2(base, punch).len() == 0,
        punch_targets::stage2(base, punch).len() <= punch_targets::one_or_more(
            punch.punch_max_expanded_targets as int,
        ),
        base.len() > 0 ==> punch_targets::stage2(base, punch).len() > 0
            && punch_targets::stage2(base, punch)[0] == base[0],
{
    if base.len() > 0 {
        let width = punch_targets::wide_width(
            base.len() as int,
            punch.punch_max_expanded_targets as int,
            punch.punch_wide_min_width as int,
            punch.punch_wide_max_width as int,
        );
        let all = punch_targets::candidates(base, None, width, width);
        assert(all.take(1) =~= seq![base[0]]);
        punch_targets::firsts_of_start(all, 1);
        reveal_with_fuel(punch_targets::firsts, 3);
        assert(seq![base[0]].drop_last() =~= Seq::<Endpoint>::empty());
        assert(punch_targets::firsts(seq![base[0]]) =~= seq![base[0]]);
        assert(punch_targets::firsts(all).take(1)[0] == base[0]);
    }
}

/// What becomes of the adapter's name: a blank one takes the adapter away, one that cannot be
/// handed to the system is not taken, and any other is.
pub proof fn adapters_are_named(
    p: MtuPolicy,
    name: String,
    suggested: u16,
    now: u64,
    post: MtuPolicy,
    out: Option<crate::mtu_policy::AdapterChange>,
)
    requires
        p.name_set(name, suggested, now, post, out),
    ensures
        text::trimmed(name@).len() == 0 ==> post.adapter_name is None && out is None,
        text::trimmed(name@).len() > 0 && !crate::mtu_policy::safe_alias(name@) ==> post == p && out
            is None,
        text::trimmed(name@).len() > 0 && crate::mtu_policy::safe_alias(name@)
            ==> post.adapter_name == Some(name),
        out matches Some(c) ==> c.adapter == name && (p.pinned ==> c.mtu == p.pinned_mtu()) && (
        !p.pinned ==> c.mtu == suggested && 576 <= suggested <= 1500),
        post.pinned == p.pinned && post.configured == p.configured,
{
}

} // verus!
