//! What holds of the decoding of coded packets, and of what the pacer says of its queues.

use crate::addr::Endpoint;
use crate::engine_state;
use crate::fec_codec;
use crate::fec_decoder;
use crate::fec_decoder::{DecoderView, GroupView, ResultView};
use crate::fec_decoders;
use crate::lane;
use crate::lane::{LaneConfig, LaneView};
use crate::lane_map;
use crate::pacing;
use crate::pacing::{PacerView, PacingConfig};
use crate::pacing_engine;
use vstd::prelude::*;

verus! {

/// A frame is read only where it has the length that it says, a group of one to sixty-four
/// shards, a place among them, and a shard of two to 1279 bytes.
pub proof fn frames_are_sound(raw: Seq<u8>)
    requires
        raw.len() >= 10,
    ensures
        !fec_decoder::malformed(raw) <==> 1 <= raw[6] + raw[7] <= 64 && raw[5] < raw[6] + raw[7] && 2
            <= raw[8] + 0x100 * raw[9] <= 1279 && raw.len() >= 10 + raw[8] + 0x100 * raw[9],
        !fec_decoder::malformed(raw) ==> fec_decoder::payload_of(raw) == raw.subrange(
            10,
            10 + raw[8] + 0x100 * raw[9],
        ),
{
}

/// A frame of another kind, or one that is too short, is refused and touches no group.
pub proof fn foreign_frames_are_refused(
    pre: DecoderView,
    raw: Seq<u8>,
    now: u64,
    out: ResultView,
    post: DecoderView,
    k: u32,
)
    requires
        fec_decoder::pushed(pre, raw, now, out, post),
        raw.len() < 10 || raw[0] != pre.frame_type,
    ensures
        out.invalid && out.recovered.len() == 0 && out.shards_new == 0,
        post.completed == pre.completed,
        post.groups.dom().contains(k) ==> pre.groups.dom().contains(k) && post.groups[k]
            == pre.groups[k],
        pre.groups.dom().contains(k) && !fec_decoder::too_old(pre.groups[k], now)
            ==> post.groups.dom().contains(k),
{
}

/// A frame of a group that is complete gives nothing, and a shard that is there already
/// neither.
pub proof fn repeated_shards_give_nothing(
    pre: DecoderView,
    raw: Seq<u8>,
    now: u64,
    out: ResultView,
    post: DecoderView,
)
    requires
        fec_decoder::pushed(pre, raw, now, out, post),
        raw.len() >= 10,
        raw[0] == pre.frame_type,
    ensures
        pre.completed.contains(fec_codec::head_of(raw).group_id) ==> out.recovered.len() == 0
            && !out.invalid && out.shards_new == 0 && post.completed == pre.completed,
{
}

/// What one frame does to groups other than its own: nothing, but that one that is too old,
/// or the oldest where there is no room, may go.
pub proof fn frames_touch_their_group(
    d: DecoderView,
    raw: Seq<u8>,
    now: u64,
    missing: nat,
    out: ResultView,
    post: DecoderView,
    k: u32,
)
    requires
        fec_decoder::accepted(d, raw, now, missing, out, post),
        k != fec_codec::head_of(raw).group_id,
    ensures
        post.groups.dom().contains(k) ==> d.groups.dom().contains(k) && post.groups[k]
            == d.groups[k],
        d.groups.dom().contains(k) && !fec_decoder::oldest(d.groups, k) ==> post.groups.dom().contains(
            k,
        ),
        d.groups.dom().contains(k) && d.groups.dom().len() < 256
            ==> post.groups.dom().contains(k),
        post.frame_type == d.frame_type && post.last_evict == d.last_evict,
        out.shards_new <= 1,
        out.shards_missing >= missing,
{
    let id = fec_codec::head_of(raw).group_id;
    let (room, more) = choose|room: Map<u32, GroupView>, more: nat|
        {
            &&& #[trigger] fec_decoder::made_room(d.groups, id, room, more)
            &&& (out, post) == fec_decoder::taken(
                DecoderView { groups: room, ..d },
                raw,
                now,
                missing + more,
            )
            &&& fec_decoder::closes(room, raw, now) ==> forall|pkts: Seq<Seq<u8>>| #[trigger]
                fec_decoder::from_packets(
                    fec_decoder::with_shard(fec_decoder::group_of(room, raw, now), raw),
                    pkts,
                ) ==> out.recovered == pkts
        };
    assert(fec_decoder::made_room(d.groups, id, room, more));
}

/// A shard takes its own place in its group and no other's.
pub proof fn shards_take_their_place(g: GroupView, raw: Seq<u8>, i: int)
    requires
        0 <= i < g.received.len(),
        raw[5] < g.received.len(),
    ensures
        ({
            let h = fec_decoder::with_shard(g, raw);
            &&& i == raw[5] ==> h.received[i] == Some(fec_decoder::payload_of(raw))
            &&& i != raw[5] ==> h.received[i] == g.received[i]
            &&& h.received.len() == g.received.len() && h.data == g.data && h.parity == g.parity
                && h.size == g.size && h.created_at == g.created_at
        }),
{
}

/// A new group has the shape that its first frame says, and no shard yet.
pub proof fn groups_begin_empty(m: Map<u32, GroupView>, raw: Seq<u8>, now: u64, i: int)
    requires
        !m.dom().contains(fec_codec::head_of(raw).group_id),
    ensures
        ({
            let g = fec_decoder::group_of(m, raw, now);
            &&& g.data == raw[6] && g.parity == raw[7] && g.size == raw[8] + 0x100 * raw[9]
            &&& g.received.len() == raw[6] + raw[7]
            &&& g.created_at == now
            &&& 0 <= i < g.received.len() ==> g.received[i] is None
        }),
{
}

/// A group that is complete is not open any more; it is remembered, and where too many are,
/// the one that was first is forgotten.
pub proof fn complete_groups_are_remembered(d: DecoderView, id: u32, k: u32)
    ensures
        ({
            let e = fec_decoder::completed(d, id);
            &&& !e.groups.dom().contains(id)
            &&& k != id ==> (e.groups.dom().contains(k) <==> d.groups.dom().contains(k))
            &&& e.completed.len() > 0 && e.completed.last() == id
            &&& d.completed.len() < 128 ==> e.completed
                == d.completed.push(id)
            &&& d.completed.len() >= 128 ==> e.completed
                == d.completed.subrange(1, d.completed.len() as int).push(id)
        }),
{
    if d.completed.len() >= 128 {
        assert(d.completed.skip(1) =~= d.completed.subrange(1, d.completed.len() as int));
    }
}

/// Groups that are too old are given up, when it is time to look, and no others.
pub proof fn old_groups_are_given_up(d: DecoderView, now: u64, k: u32)
    ensures
        ({
            let e = fec_decoder::evicted(d, now);
            &&& e.groups.dom().contains(k) <==> d.groups.dom().contains(k) && engine_state::elapsed(
                now,
                d.groups[k].created_at,
            ) < 200_000
            &&& e.groups.dom().contains(k) ==> e.groups[k] == d.groups[k]
            &&& e.last_evict == now && e.completed == d.completed
        }),
{
}

/// Every sender has a decoder of its own: those of known peers stay, and of the others those
/// that still have an open group.
pub proof fn senders_have_their_own_decoder(
    m: Map<Endpoint, DecoderView>,
    known: Set<Endpoint>,
    frame_type: u8,
    now: u64,
    e: Endpoint,
)
    ensures
        m.dom().contains(e) ==> fec_decoders::decoder_of(m, e, frame_type, now) == m[e],
        !m.dom().contains(e) ==> ({
            let d = fec_decoders::decoder_of(m, e, frame_type, now);
            d.frame_type == frame_type && d.groups.dom().len() == 0 && d.completed.len() == 0
        }),
        ({
            let n = fec_decoders::pruned(m, known, now);
            &&& n.dom().contains(e) ==> m.dom().contains(e)
            &&& m.dom().contains(e) && known.contains(e) ==> n.dom().contains(e)
            &&& n.dom().contains(e) && !known.contains(e) ==> n[e].groups.dom().len() > 0
            &&& n.dom().contains(e) ==> n[e].completed == m[e].completed
        }),
{
}

/// No packet that is first of its queue has waited longer than what is told, and some has
/// waited as long.
pub proof fn longest_wait_is_told(v: PacerView, now: u64, n: nat)
    requires
        n <= v.lanes.len(),
    ensures
        ({
            let t = pacing_engine::longest_wait(v, now, n);
            &&& t >= 0
            &&& v.control.len() > 0 ==> t >= engine_state::elapsed(now, v.control[0].enqueued_at)
            &&& v.rtx.len() > 0 ==> t >= engine_state::elapsed(now, v.rtx[0].enqueued_at)
            &&& forall|i: int|
                0 <= i < n && (#[trigger] v.lanes[i]).1.small.len() > 0 ==> t
                    >= engine_state::elapsed(now, v.lanes[i].1.small[0].enqueued_at)
            &&& forall|i: int|
                0 <= i < n && (#[trigger] v.lanes[i]).1.bulk.len() > 0 ==> t
                    >= engine_state::elapsed(now, v.lanes[i].1.bulk[0].enqueued_at)
            &&& t > 0 ==> (v.control.len() > 0 && t == engine_state::elapsed(
                now,
                v.control[0].enqueued_at,
            )) || (v.rtx.len() > 0 && t == engine_state::elapsed(now, v.rtx[0].enqueued_at))
                || exists|i: int|
                0 <= i < n && ((#[trigger] v.lanes[i]).1.small.len() > 0 && t
                    == engine_state::elapsed(now, v.lanes[i].1.small[0].enqueued_at)
                    || v.lanes[i].1.bulk.len() > 0 && t == engine_state::elapsed(
                    now,
                    v.lanes[i].1.bulk[0].enqueued_at,
                ))
        }),
    decreases n,
{
    if n > 0 {
        longest_wait_is_told(v, now, (n - 1) as nat);
        let t = pacing_engine::longest_wait(v, now, n);
        let s = pacing_engine::longest_wait(v, now, (n - 1) as nat);
        let l = v.lanes[n - 1].1;
        if t > s {
            assert(v.lanes[n - 1].1 == l);
        } else if t > 0 && exists|i: int|
            0 <= i < n - 1 && ((#[trigger] v.lanes[i]).1.small.len() > 0 && s
                == engine_state::elapsed(now, v.lanes[i].1.small[0].enqueued_at)
                || v.lanes[i].1.bulk.len() > 0 && s == engine_state::elapsed(
                now,
                v.lanes[i].1.bulk[0].enqueued_at,
            )) {
            let i = choose|i: int|
                0 <= i < n - 1 && ((#[trigger] v.lanes[i]).1.small.len() > 0 && s
                    == engine_state::elapsed(now, v.lanes[i].1.small[0].enqueued_at)
                    || v.lanes[i].1.bulk.len() > 0 && s == engine_state::elapsed(
                    now,
                    v.lanes[i].1.bulk[0].enqueued_at,
                ));
            assert(0 <= i < n && v.lanes[i] == v.lanes[i]);
        }
    }
}

/// What is told of the queues is how many packets wait in each, and for how many there is
/// room: as many as a destination may have for each that waits, and those of the two others.
pub proof fn queues_are_told(v: PacerView)
    requires
        v.control.len() <= usize::MAX,
        v.rtx.len() <= usize::MAX,
        pacing::data_queued(v.lanes, v.lanes.len()) <= usize::MAX,
        (v.non_empty + 1) * v.cfg.max_data_queue_packets + v.cfg.max_control_queue_packets
            + v.cfg.max_retransmit_queue_packets <= usize::MAX,
    ensures
        ({
            let s = pacing_engine::snapshot_of(v);
            &&& s.control_queued == v.control.len()
            &&& s.retransmit_queued == v.rtx.len()
            &&& s.data_queued == pacing::data_queued(v.lanes, v.lanes.len())
            &&& v.non_empty > 0 ==> s.queue_capacity == v.non_empty * v.cfg.max_data_queue_packets
                + v.cfg.max_control_queue_packets + v.cfg.max_retransmit_queue_packets
            &&& v.non_empty == 0 ==> s.queue_capacity == v.cfg.max_data_queue_packets
                + v.cfg.max_control_queue_packets + v.cfg.max_retransmit_queue_packets
        }),
{
    let n = v.non_empty as int;
    let d = v.cfg.max_data_queue_packets as int;
    assert((n + 1) * d == n * d + d) by (nonlinear_arith);
    assert(n * d >= 0) by (nonlinear_arith)
        requires
            n >= 0,
            d >= 0,
    ;
}

/// New settings leave the packets alone.
pub proof fn settings_keep_packets(v: PacerView, cfg: PacingConfig)
    ensures
        ({
            let w = pacing_engine::configured(v, cfg);
            &&& w.control == v.control && w.rtx == v.rtx && w.lanes == v.lanes && w.non_empty
                == v.non_empty && w.cursor == v.cursor && w.n == v.n
            &&& w.errors == 0
            &&& w.cfg.target_pps == cfg.target_pps && w.cfg.drr_enabled == cfg.drr_enabled
            &&& w.apd.cfg == w.cfg.apd
            &&& w.cfg.drr_quantum >= 1500 && (cfg.drr_quantum >= 1500 ==> w.cfg.drr_quantum
                == cfg.drr_quantum)
        }),
{
}

/// From which lane a destination's next packet comes: where small packets go first, from
/// theirs, but for a large one that has waited eight milliseconds or for eight small ones;
/// where not, whichever came first.
pub proof fn lanes_take_turns(l: LaneView, cfg: LaneConfig, now: u64)
    requires
        l.small.len() + l.bulk.len() > 0,
    ensures
        ({
            let e = lane::lane_front(l, cfg, now);
            let rest = lane::lane_popped(l, cfg, now);
            let forced = l.bulk.len() > 0 && (l.small_run >= 8 || now - l.bulk[0].enqueued_at
                >= 8000);
            &&& cfg.priority_on && l.small.len() > 0 && !forced ==> e == l.small[0] && rest.small
                == l.small.subrange(1, l.small.len() as int) && rest.bulk == l.bulk
            &&& cfg.priority_on && forced ==> e == l.bulk[0] && rest.bulk == l.bulk.subrange(
                1,
                l.bulk.len() as int,
            ) && rest.small == l.small && rest.small_run == 0
            &&& l.small.len() == 0 ==> e == l.bulk[0]
            &&& l.bulk.len() == 0 ==> e == l.small[0]
            &&& !cfg.priority_on && l.small.len() > 0 && l.bulk.len() > 0
                && l.small[0].enqueued_at < l.bulk[0].enqueued_at ==> e == l.small[0]
            &&& !cfg.priority_on && l.small.len() > 0 && l.bulk.len() > 0
                && l.bulk[0].enqueued_at < l.small[0].enqueued_at ==> e == l.bulk[0]
            &&& cfg.priority_on && e == l.small[0] && !forced && l.small.len() > 0 && l.small_run
                < 255 ==> rest.small_run == l.small_run + 1
        }),
{
    if l.small.len() > 0 {
        assert(l.small.skip(1) =~= l.small.subrange(1, l.small.len() as int));
    }
    if l.bulk.len() > 0 {
        assert(l.bulk.skip(1) =~= l.bulk.subrange(1, l.bulk.len() as int));
    }
}

/// An endpoint is found again from the numbers that stand for it, and different endpoints
/// have different numbers.
pub proof fn endpoints_as_numbers(a: Endpoint, b: Endpoint)
    ensures
        lane_map::ep_of(lane_map::key_of(a)) == a,
        lane_map::key_of(a) == lane_map::key_of(b) ==> a == b,
{
}

} // verus!
