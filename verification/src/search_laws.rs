//! What holds of the search for peers by trackers.

use crate::addr::Endpoint;
use crate::decentralized;
use crate::decentralized::{
    PendingKind, PendingOp, SearchStart, SearchView, SlotAction, SlotView, TrackerScheme, UrlView,
};
use crate::engine_state;
use crate::punch_targets;
use vstd::prelude::*;

verus! {

/// A tracker is asked at the addresses that are known of it, one after the other: after one
/// that could not be reached comes the next, and after the last the first.
pub proof fn addresses_take_turns(s: SlotView)
    requires
        s.use_idx < s.addrs.len() <= usize::MAX,
    ensures
        s.current() == Some(s.addrs[s.use_idx as int]),
        s.use_idx + 1 < s.addrs.len() ==> s.rotated().current() == Some(s.addrs[s.use_idx + 1]),
        s.use_idx + 1 == s.addrs.len() ==> s.rotated().current() == Some(s.addrs[0]),
        s.rotated().addrs == s.addrs && s.rotated().url == s.url && s.rotated().last_announce
            == s.last_announce,
{
    let n = s.addrs.len() as int;
    assert(s.use_idx as int % n == s.use_idx) by (nonlinear_arith)
        requires
            0 <= s.use_idx < n,
    ;
    if s.use_idx + 1 < n {
        assert((s.use_idx + 1) % n == s.use_idx + 1) by (nonlinear_arith)
            requires
                0 <= s.use_idx + 1 < n,
        ;
    } else {
        assert(n % n == 0) by (nonlinear_arith)
            requires
                n > 0,
        ;
    }
    let r = s.rotated().use_idx as int;
    assert(r % n == r) by (nonlinear_arith)
        requires
            0 <= r < n,
    ;
}

/// A tracker is asked again after the longer of its own time and the configured one, but
/// within five minutes; one that was never asked is asked at once.
pub proof fn trackers_are_asked_again(s: SlotView, secs: u64, now: u64)
    ensures
        s.last_announce is None ==> s.due(secs, now),
        s.last_announce matches Some(t) ==> t <= now && now - t >= 300_000 ==> s.due(secs, now),
        s.last_announce matches Some(t) ==> t <= now && secs >= 300 && now - t < 300_000 ==> !s.due(
            secs,
            now,
        ),
        s.last_announce matches Some(t) ==> t <= now && secs <= 300 && now - t < secs * 1000
            ==> !s.due(secs, now),
        s.last_announce matches Some(t) ==> t <= now && s.server_interval_secs <= 300 && now - t
            < s.server_interval_secs * 1000 ==> !s.due(secs, now),
        s.pause(secs) <= 300,
        secs <= 300 ==> s.pause(secs) >= secs,
{
}

/// A request over HTTP is given up after twenty seconds, and then the tracker can be asked
/// anew.
pub proof fn http_requests_are_given_up(s: SlotView, now: u64)
    ensures
        ({
            let t = s.http_swept(now);
            &&& s.http_in_flight && (s.http_in_flight_since is None || now
                - s.http_in_flight_since->0 >= 20_000) ==> !t.http_in_flight
            &&& s.http_in_flight && s.http_in_flight_since is Some && s.http_in_flight_since->0 <= now
                && now - s.http_in_flight_since->0 < 20_000 ==> t == s
            &&& !s.http_in_flight ==> t == s
            &&& t.url == s.url && t.addrs == s.addrs && t.last_announce == s.last_announce
        }),
{
}

/// A search takes the first thirty-two trackers whose address can be read, in their order,
/// each as it is given.
pub proof fn searches_take_their_trackers(urls: Seq<UrlView>, secs: u64)
    ensures
        ({
            let s = decentralized::fresh_slots(urls, secs);
            let good = urls.filter(|u: UrlView| u.endpoint is Some);
            &&& s.len() == if good.len() > 32 {
                32
            } else {
                good.len()
            }
            &&& forall|i: int|
                0 <= i < s.len() ==> (#[trigger] s[i]).url == good[i].url && s[i].scheme == (
                good[i].endpoint->0).0 && s[i].host == (good[i].endpoint->0).1 && s[i].port == (
                good[i].endpoint->0).2 && s[i].path == (good[i].endpoint->0).3 && s[i].lookup
                    == good[i].lookup && s[i].last_announce is None && s[i].addrs.len() == 0
                    && !s[i].http_in_flight && !s[i].resolve_in_flight
        }),
    decreases urls.len(),
{
    reveal(Seq::filter);
    if urls.len() > 0 {
        searches_take_their_trackers(urls.drop_last(), secs);
        let r = decentralized::fresh_slots(urls.drop_last(), secs);
        let s = decentralized::fresh_slots(urls, secs);
        let a = urls.drop_last().filter(|u: UrlView| u.endpoint is Some);
        let b = urls.filter(|u: UrlView| u.endpoint is Some);
        assert forall|i: int| 0 <= i < s.len() implies (#[trigger] s[i]).url == b[i].url
            && s[i].scheme == (b[i].endpoint->0).0 && s[i].host == (b[i].endpoint->0).1 && s[i].port
            == (b[i].endpoint->0).2 && s[i].path == (b[i].endpoint->0).3 && s[i].lookup
            == b[i].lookup && s[i].last_announce is None && s[i].addrs.len() == 0
            && !s[i].http_in_flight && !s[i].resolve_in_flight by {
            if i < r.len() {
                assert(s[i] == r[i]);
                assert(a[i] == b[i]);
            }
        }
    }
}

/// A search that starts has its own number, its own room and name, and knows nobody yet.
pub proof fn searches_start_anew(generation: u64, s: SearchStart)
    ensures
        ({
            let v = decentralized::started(generation, s);
            &&& v.active && v.generation != generation
            &&& v.room_id == s.room_id@ && v.peer_id == s.peer_id@
            &&& v.announce_secs >= 60 && (s.announce_secs >= 60 ==> v.announce_secs
                == s.announce_secs)
            &&& v.is_joiner == s.is_joiner && v.join_owner_hint == s.join_owner_hint
                && v.listen_port == s.listen_port
            &&& s.join_body matches Some(b) ==> v.join_body == Some(b@)
            &&& s.join_body is None ==> v.join_body is None
            &&& v.pending.dom().len() == 0 && v.connections.dom().len() == 0
                && v.discovered.dom().len() == 0 && !v.had_join_announce_response
        }),
        !decentralized::at_rest(generation).active,
        decentralized::at_rest(generation).generation == generation,
        decentralized::at_rest(generation).slots.len() == 0,
{
}

/// What a tracker is asked next: first for a connection, then for peers; with each question
/// under a number of its own, and no question twice while it is open. A tracker that is not
/// due, or of which no address is known, is not asked.
pub proof fn trackers_are_asked_in_turn(v: SearchView, i: usize, port: u16, txn: u32, now: u64)
    ensures
        ({
            let (act, w) = decentralized::slot_asked(v, i, port, txn, now);
            &&& act is Idle ==> w == v
            &&& act !is Idle ==> i < v.slots.len() && v.slots[i as int].scheme == TrackerScheme::Udp
                && v.slots[i as int].due(v.announce_secs, now) && w.pending.dom().contains(txn)
                && w.slots == v.slots && w.discovered == v.discovered && w.connections
                == v.connections
            &&& act matches SlotAction::SendConnect { to, txn: t } ==> t == txn
                && v.slots[i as int].current() == Some(to) && (!v.connections.dom().contains(to)
                || now - v.connections[to].made_at >= 55_000) && w.pending[txn].kind
                == PendingKind::Connect && w.pending[txn].tracker == to && w.pending[txn].created
                == now
            &&& act matches SlotAction::SendAnnounce { to, txn: t, connection, announce_port } ==> t
                == txn && announce_port == port && v.slots[i as int].current() == Some(to)
                && v.connections.dom().contains(to) && connection == v.connections[to].id && (
            v.connections[to].made_at > now || now - v.connections[to].made_at < 55_000)
                && w.pending[txn].kind == PendingKind::Announce && w.pending[txn].tracker == to
            &&& i < v.slots.len() && v.slots[i as int].scheme == TrackerScheme::Udp
                && v.slots[i as int].current() is Some && v.slots[i as int].due(
                v.announce_secs,
                now,
            ) && v.pending.dom().len() == 0 && v.pending.dom().finite() ==> act !is Idle
        }),
{
    if v.pending.dom().len() == 0 && v.pending.dom().finite() {
        assert(v.pending.dom() =~= Set::empty());
    }
}

/// A question that could not be sent is not open any more, and the next address of its
/// tracker has its turn; a connection that could not be used is given up.
pub proof fn unsent_questions(v: SearchView, i: usize, act: SlotAction)
    requires
        i < v.slots.len(),
    ensures
        ({
            let w = decentralized::not_sent(v, i, act);
            &&& act is Idle ==> w == v
            &&& act matches SlotAction::SendConnect { to, txn } ==> !w.pending.dom().contains(txn)
                && w.slots[i as int] == v.slots[i as int].rotated() && w.connections
                == v.connections
            &&& act matches SlotAction::SendAnnounce { to, txn, .. } ==> !w.pending.dom().contains(
                txn,
            ) && w.slots[i as int] == v.slots[i as int].rotated() && !w.connections.dom().contains(
                to,
            )
            &&& forall|j: int|
                0 <= j < v.slots.len() && j != i ==> #[trigger] w.slots[j] == v.slots[j]
        }),
{
}

/// What an answer brings: a connection for the tracker that was asked, or peers and the time
/// after which it wants to be asked again, at least a minute.
pub proof fn answers_are_taken(
    v: SearchView,
    from: Endpoint,
    data: Seq<u8>,
    connection: Option<u64>,
    announce: Option<(u32, Seq<Endpoint>)>,
    now: u64,
    e: Endpoint,
)
    requires
        v.active,
        data.len() >= 16,
        v.pending.dom().contains(decentralized::txn_of(data)),
        v.pending[decentralized::txn_of(data)].tracker == from,
        0 <= decentralized::slot_of(v.slots, from) < v.slots.len(),
    ensures
        ({
            let (handled, event, w) = decentralized::answered(
                v,
                from,
                data,
                connection,
                announce,
                now,
            );
            let op = v.pending[decentralized::txn_of(data)];
            let i = decentralized::slot_of(v.slots, from);
            &&& handled
            &&& op.kind == PendingKind::Connect && connection is Some ==> w.connections.dom().contains(
                from,
            ) && w.connections[from].id == connection->0 && w.connections[from].made_at == now
                && w.slots == v.slots && w.discovered == v.discovered
            &&& op.kind == PendingKind::Announce ==> w.connections == v.connections
            &&& op.kind == PendingKind::Announce && announce is Some ==> w.slots[i].last_announce
                == Some(now) && w.slots[i].server_interval_secs >= 60 && ((announce->0).0 >= 60
                ==> w.slots[i].server_interval_secs == (announce->0).0)
            &&& op.kind == PendingKind::Announce && announce is Some ==> (w.discovered.dom().contains(e)
                <==> v.discovered.dom().contains(e) || (announce->0).1.contains(e))
            &&& op.kind == PendingKind::Announce && announce is Some && v.is_joiner
                ==> w.had_join_announce_response
            &&& op.kind == PendingKind::Announce && announce is Some ==> event is Some && (event->0
            ).announce is Some && ((event->0).announce->0).0 == (announce->0).1
        }),
        decentralized::txn_of(data) == data[4] * 0x1000000 + data[5] * 0x10000 + data[6] * 0x100
            + data[7],
{
    if announce is Some {
        decentralized::named_peers_are_known(v.discovered, (announce->0).1, now, e);
    }
}

/// Questions are open for twenty seconds, and peers are known for five minutes after they
/// were last named.
pub proof fn questions_and_peers_age(m: Map<u32, PendingOp>, d: Map<Endpoint, u64>, now: u64, k: u32, e: Endpoint)
    ensures
        decentralized::fresh_pending(m, now).dom().contains(k) <==> m.dom().contains(k) && (
        m[k].created > now || now - m[k].created < 20_000),
        decentralized::fresh_pending(m, now).dom().contains(k) ==> decentralized::fresh_pending(
            m,
            now,
        )[k] == m[k],
        decentralized::known(d, now).dom().contains(e) <==> d.dom().contains(e) && (d[e] > now || now
            - d[e] < 300_000),
        decentralized::known(d, now).dom().contains(e) ==> decentralized::known(d, now)[e] == d[e],
{
}

/// Where too many peers are known, those that were named last stay: 256 of them.
pub proof fn newest_peers_stay(
    before: Map<Endpoint, u64>,
    after: Map<Endpoint, u64>,
    now: u64,
    a: Endpoint,
    b: Endpoint,
)
    requires
        decentralized::pruned(before, after, now),
        before.dom().finite(),
    ensures
        after.dom().contains(a) ==> before.dom().contains(a) && after[a] == before[a],
        after.dom().len() <= 256,
        decentralized::known(before, now).dom().contains(a) && !after.dom().contains(a)
            && after.dom().contains(b) ==> before[a] <= before[b],
        decentralized::known(before, now).dom().len() <= 256
            && decentralized::known(before, now).dom().contains(a) ==> after.dom().contains(a),
{
    let live = decentralized::known(before, now);
    assert(live.dom().subset_of(before.dom()));
    if after.dom().contains(a) {
        assert(live.dom().contains(a));
    }
    if live.dom().contains(a) && !after.dom().contains(a) && after.dom().contains(b) {
        assert(live.dom().contains(b));
    }
}

/// The addresses of a tracker are those of version 4 that were found, each once, those that
/// were known before first.
pub proof fn addresses_are_added(before: Seq<Endpoint>, new: Seq<Endpoint>, e: Endpoint)
    ensures
        ({
            let r = decentralized::with_addrs(before, new);
            &&& r.contains(e) <==> before.contains(e) || (new.contains(e) && e.ip is V4)
            &&& r.len() >= before.len()
            &&& forall|i: int| 0 <= i < before.len() ==> r[i] == before[i]
        }),
    decreases new.len(),
{
    if new.len() > 0 {
        let p = new.drop_last();
        addresses_are_added(before, p, e);
        addresses_are_added(before, p, new.last());
        let q = decentralized::with_addrs(before, p);
        let r = decentralized::with_addrs(before, new);
        if q.contains(e) {
            let i = choose|i: int| 0 <= i < q.len() && q[i] == e;
            assert(r[i] == e);
        }
        if r.contains(e) {
            let i = choose|i: int| 0 <= i < r.len() && r[i] == e;
            if i < q.len() {
                assert(q[i] == e);
            }
        }
        if p.contains(e) {
            let i = choose|i: int| 0 <= i < p.len() && p[i] == e;
            assert(new[i] == e);
        }
        if new.contains(e) {
            let i = choose|i: int| 0 <= i < new.len() && new[i] == e;
            if i < p.len() {
                assert(p[i] == e);
            }
        }
        assert(new[new.len() - 1] == new.last());
        if r.len() > q.len() {
            assert(r[q.len() as int] == new.last());
        }
    }
}

/// What is tried exactly: the sixty-four peers that come first, and the owner in any case.
/// Join requests go to eight of them at most, none gets two, and only a joiner that waits
/// sends any, all with the same body.
pub proof fn joins_are_fanned_out(v: SearchView, targets: Seq<Endpoint>, waits: bool, peers: Seq<Endpoint>)
    ensures
        ({
            let (punch, join) = decentralized::tick_result(v, targets, waits);
            &&& join.len() <= 8
            &&& join.len() > 0 ==> v.is_joiner && waits && v.join_body is Some
            &&& forall|i: int| 0 <= i < join.len() ==> (#[trigger] join[i]).1 == v.join_body->0
            &&& forall|i: int, j: int|
                0 <= i < j < join.len() ==> (#[trigger] join[i]).0 != (#[trigger] join[j]).0
            &&& forall|i: int|
                0 <= i < join.len() ==> targets.contains((#[trigger] join[i]).0)
                    || v.join_owner_hint == Some(join[i].0)
            &&& targets.len() == 0 ==> punch.len() == 0
            &&& punch.len() <= 512
        }),
        v.join_owner_hint is None ==> decentralized::exact(peers, v.join_owner_hint).len() <= 64,
        forall|i: int|
            0 <= i < peers.len() && i < 64 ==> #[trigger] decentralized::exact(
                peers,
                v.join_owner_hint,
            )[i] == peers[i],
{
    let first = match v.join_owner_hint {
        Some(h) => seq![h],
        None => Seq::empty(),
    };
    let all = first + targets;
    punch_targets::firsts_keep_all(all);
    let fs = punch_targets::firsts(all);
    let f = decentralized::fan(v.join_owner_hint, targets);
    let (punch, join) = decentralized::tick_result(v, targets, waits);
    assert forall|i: int, j: int| 0 <= i < j < join.len() implies (#[trigger] join[i]).0 != (
    #[trigger] join[j]).0 by {
        assert(fs[i] != fs[j]);
    }
    assert forall|i: int| 0 <= i < join.len() implies targets.contains((#[trigger] join[i]).0)
        || v.join_owner_hint == Some(join[i].0) by {
        assert(fs[i] == join[i].0);
        assert(fs.contains(join[i].0));
        let k = choose|k: int| 0 <= k < all.len() && all[k] == join[i].0;
        if k >= first.len() {
            assert(targets[k - first.len()] == join[i].0);
        }
    }
    if targets.len() > 0 {
        punch_targets::searches_stay_in_bounds(targets, v.join_owner_hint, 256, 128, 512);
    }
}

/// Every request over HTTP goes to the tracker of its place, at its host, port and path, for
/// the room of the search and in the name of this node; it names the port to be reached at,
/// and the search that it belongs to. Only trackers that are due are asked.
pub proof fn requests_name_their_tracker(
    v: SearchView,
    slots: Seq<SlotView>,
    n: int,
    busy: int,
    port: u16,
    now: u64,
    k: int,
)
    requires
        0 <= n <= slots.len(),
        0 <= k < decentralized::work_list(v, slots, n, busy, port, now).len(),
    ensures
        ({
            let w = decentralized::work_list(v, slots, n, busy, port, now)[k];
            let i = w.slot_idx;
            &&& 0 <= i < n
            &&& w.tracker_url == slots[i].url && w.host == slots[i].host && w.port == slots[i].port
                && w.path == slots[i].path
            &&& w.room_id == v.room_id && w.peer_id == v.peer_id && w.generation == v.generation
            &&& w.announce_port == port && w.wanted == 50
            &&& slots[i].scheme == TrackerScheme::Http && !slots[i].http_in_flight && slots[i].due(
                v.announce_secs,
                now,
            )
        }),
    decreases n,
{
    if n > 0 {
        let r = decentralized::work_list(v, slots, n - 1, busy, port, now);
        if k < r.len() {
            requests_name_their_tracker(v, slots, n - 1, busy, port, now, k);
        }
    }
}

/// A tracker that is due is asked over HTTP as long as fewer than four requests are under
/// way.
pub proof fn due_trackers_are_asked(slots: Seq<SlotView>, busy: int, secs: u64, now: u64, i: int)
    requires
        0 <= i < slots.len(),
        busy >= 0,
        busy + i < 4,
    ensures
        ({
            let t = decentralized::handed_out(slots, busy, secs, now);
            &&& slots[i].scheme == TrackerScheme::Http && !slots[i].http_in_flight && slots[i].due(
                secs,
                now,
            ) ==> t[i].http_in_flight && t[i].http_in_flight_since == Some(now)
            &&& slots[i].scheme == TrackerScheme::Udp ==> t[i] == slots[i]
            &&& t[i].url == slots[i].url && t[i].last_announce == slots[i].last_announce
        }),
{
    few_are_picked(slots, i, busy, secs, now);
}

proof fn few_are_picked(slots: Seq<SlotView>, n: int, busy: int, secs: u64, now: u64)
    requires
        0 <= n,
    ensures
        0 <= decentralized::picked(slots, n, busy, secs, now) <= n,
    decreases n,
{
    if n > 0 {
        few_are_picked(slots, n - 1, busy, secs, now);
    }
}

/// The names of trackers that are looked up are those of which no address is known yet, each
/// once at a time.
pub proof fn unknown_names_are_looked_up(slots: Seq<SlotView>, i: int)
    requires
        0 <= i < slots.len(),
    ensures
        ({
            let t = decentralized::looking_up(slots);
            let wants = slots[i].scheme == TrackerScheme::Udp && slots[i].addrs.len() == 0
                && !slots[i].resolve_in_flight && slots[i].lookup is Some;
            &&& wants ==> decentralized::lookups(slots).contains((i, slots[i].lookup->0))
            &&& wants ==> t[i].resolve_in_flight
            &&& !wants ==> t[i] == slots[i]
            &&& !t[i].wants_lookup()
        }),
    decreases slots.len(),
{
    let p = slots.drop_last();
    let a = decentralized::lookups(p);
    let b = decentralized::lookups(slots);
    if i < p.len() {
        unknown_names_are_looked_up(p, i);
        if a.contains((i, slots[i].lookup->0)) {
            let k = choose|k: int| 0 <= k < a.len() && a[k] == (i, slots[i].lookup->0);
            assert(b[k] == a[k]);
        }
    } else if slots[i].wants_lookup() {
        assert(b[a.len() as int] == (i, slots[i].lookup->0));
    }
}

} // verus!
