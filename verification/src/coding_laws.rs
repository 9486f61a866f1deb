//! What holds of coded packets: how they lie in frames, when they are coded, and with how
//! much parity.

use crate::addr::Endpoint;
use crate::fec;
use crate::fec::{EncoderView, OutputView};
use crate::fec_codec;
use crate::fec_codec::FrameHead;
use crate::fec_ratio;
use crate::fec_ratio::{FecRoute, FecSendInput, FecSendState};
use crate::fec_tx_worker;
use crate::fec_tx_worker::{FecTxControl, FecTxTuning, Hints, QueueLens, WorkerState};
use vstd::prelude::*;

verus! {

/// How a frame lies on the wire: its type, the group's number in four bytes with the low
/// one first, the shard's place, how many shards hold data and how many parity, the length
/// of the shard in two bytes with the low one first, and the shard.
pub proof fn frame_layout(frame_type: u8, h: FrameHead, shard: Seq<u8>, i: int)
    requires
        shard.len() <= u16::MAX,
    ensures
        ({
            let f = fec_codec::frame(frame_type, h, shard);
            &&& f.len() == 10 + shard.len()
            &&& f[0] == frame_type
            &&& h.group_id == f[1] + 0x100 * f[2] + 0x10000 * f[3] + 0x1000000 * f[4]
            &&& f[5] == h.shard_idx
            &&& f[6] == h.data_shards
            &&& f[7] == h.parity_shards
            &&& shard.len() == f[8] + 0x100 * f[9]
            &&& 0 <= i < shard.len() ==> f[10 + i] == shard[i]
        }),
{
    fec_codec::frame_keeps_shard(frame_type, h, shard);
    let f = fec_codec::frame(frame_type, h, shard);
    let g = h.group_id;
    assert(f[1] == (g % 256) as u8 && f[2] == (g / 256 % 256) as u8 && f[3] == (g / 65536 % 256)
        as u8 && f[4] == (g / 16777216) as u8);
    assert(g == g % 256 + 256 * (g / 256 % 256) + 65536 * (g / 65536 % 256) + 16777216 * (g
        / 16777216));
    assert(f[8] == (shard.len() % 256) as u8 && f[9] == (shard.len() / 256 % 256) as u8);
}

/// What is read from a frame, from the same places.
pub proof fn frame_reading(raw: Seq<u8>)
    ensures
        fec_codec::head_of(raw).group_id == raw[1] + 0x100 * raw[2] + 0x10000 * raw[3] + 0x1000000
            * raw[4],
        fec_codec::head_of(raw).shard_idx == raw[5],
        fec_codec::head_of(raw).data_shards == raw[6],
        fec_codec::head_of(raw).parity_shards == raw[7],
        fec_codec::shard_len_of(raw) == raw[8] + 0x100 * raw[9],
{
}

/// How a packet lies in its shard: its length in two bytes with the low one first, its
/// bytes, and zeros to the end.
pub proof fn shard_layout(pkt: Seq<u8>, size: nat, i: int)
    requires
        pkt.len() + 2 <= size,
        pkt.len() <= u16::MAX,
    ensures
        ({
            let s = fec_codec::shard_of(pkt, size);
            &&& s.len() == size
            &&& pkt.len() == s[0] + 0x100 * s[1]
            &&& 0 <= i < pkt.len() ==> s[2 + i] == pkt[i]
            &&& pkt.len() + 2 <= i < size ==> s[i] == 0
        }),
{
    let s = fec_codec::shard_of(pkt, size);
    assert(s[0] == (pkt.len() % 256) as u8);
    assert(s[1] == (pkt.len() / 256 % 256) as u8);
}

/// The frames of a group are numbered from zero, data before parity; all have the group's
/// number and tell how many of each there are; the data shards are those of the packets, in
/// their order.
pub proof fn frames_of_a_group(e: EncoderView, parity: nat, i: int)
    requires
        e.pending.len() + parity <= 255,
        0 <= i < e.pending.len() + parity,
        e.shard <= u16::MAX,
        forall|k: int| 0 <= k < e.pending.len() ==> (#[trigger] e.pending[k]).len() + 2 <= e.shard,
    ensures
        ({
            let frames = fec::group_frames(e, parity);
            let n = e.pending.len();
            &&& frames.len() == n + parity
            &&& i < n ==> frames[i] == fec_codec::frame(
                e.frame_type,
                FrameHead {
                    group_id: e.salt ^ e.seq,
                    shard_idx: i as u8,
                    data_shards: n as u8,
                    parity_shards: parity as u8,
                },
                fec_codec::shard_of(e.pending[i], e.shard as nat),
            )
        }),
{
    let n = e.pending.len();
    let shards = fec::shards_of(e.pending, e.shard as nat);
    if i < n {
        assert(fec_codec::whole(shards, parity)[i] == shards[i]);
    }
}

/// A full group goes out coded with all of its parity where the queue has room for all of
/// its frames, and as it is where not. An urgent packet closes its group at once. Any other
/// packet waits.
pub proof fn groups_close_when_full(
    e: EncoderView,
    pkt: Seq<u8>,
    budget: Option<(usize, usize)>,
    now: u64,
)
    requires
        e.data > 0 && e.parity > 0,
        pkt.len() + 2 <= e.shard,
        e.data + e.parity <= 64,
        e.pending.len() < e.data,
    ensures
        ({
            let (out, e1) = fec::pushed(e, pkt, budget, now);
            let room = budget is None || (budget->0).0 + e.data + e.parity <= (budget->0).1;
            let full = e.pending.len() + 1 == e.data;
            &&& full && room ==> (out matches OutputView::Encoded(frames) && frames.len() == e.data
                + e.parity)
            &&& full && !room && (budget->0).0 + e.data + e.parity <= usize::MAX ==> out
                == OutputView::Passthrough(e.pending.push(pkt))
            &&& !full && pkt.len() > 255 ==> out is Buffered && e1.pending == e.pending.push(pkt)
            &&& !full && pkt.len() <= 255 ==> out !is Buffered && e1.pending.len() == 0
            &&& !full && pkt.len() <= 255 && e.pending.len() == 0 ==> out == OutputView::Passthrough(
                seq![pkt],
            )
        }),
{
    assert(Seq::<Seq<u8>>::empty().push(pkt) =~= seq![pkt]);
    if e.pending.len() == 0 {
        assert(e.pending.push(pkt) =~= seq![pkt]);
    }
}

/// Of a packet that comes to a group, the first tells since when the group waits; and a
/// group waits no longer than the most urgent of its packets can.
pub proof fn groups_wait_for_their_first(e: EncoderView, pkt: Seq<u8>, now: u64)
    ensures
        ({
            let e1 = fec::joined(e, pkt, now);
            &&& e.first_at is Some ==> e1.first_at == e.first_at
            &&& e.first_at is None ==> e1.first_at == Some(now)
            &&& e.pending.len() > 0 ==> e1.timeout <= e.timeout
            &&& e1.timeout <= e.standard || e.pending.len() > 0
            &&& 255 < pkt.len() <= 799 ==> e1.timeout <= e.aggressive
            &&& pkt.len() <= 255 ==> e1.timeout == 0
            &&& e1.pending == e.pending.push(pkt)
            &&& e1.seq == e.seq && e1.data == e.data && e1.parity == e.parity && e1.salt == e.salt
        }),
{
}

/// The size of shards is what is configured, or what the path carries once the headers are
/// off, or 1279 bytes, whichever is least; and none where that is below 512.
pub proof fn shards_fit_the_path(configured: usize, mtu: usize)
    ensures
        ({
            let s = fec_ratio::effective_size(configured, mtu);
            &&& s is Some <==> configured >= 512 && mtu >= 512 + 38
            &&& s matches Some(n) ==> n <= configured && n + 38 <= mtu && n <= 1279 && (n
                == configured || n + 38 == mtu || n == 1279)
        }),
{
}

/// A ratio has less parity than another where its share of parity is smaller: two ratios
/// compare as their quotients do, and none is lighter than itself.
pub proof fn ratios_compare(a: (u8, u8), b: (u8, u8), c: (u8, u8))
    ensures
        !fec_ratio::lighter(a, a),
        fec_ratio::lighter(a, b) ==> !fec_ratio::lighter(b, a),
        a.0 == b.0 && b.0 > 0 ==> (fec_ratio::lighter(a, b) <==> a.1 < b.1),
        a.1 == b.1 && b.1 > 0 ==> (fec_ratio::lighter(a, b) <==> a.0 > b.0),
        fec_ratio::on(a) <==> a.0 != 0 && a.1 != 0,
{
    let (a0, a1, b0, b1) = (a.0 as int, a.1 as int, b.0 as int, b.1 as int);
    assert(a1 * (b0 + b1) == a1 * b0 + a1 * b1) by (nonlinear_arith);
    assert(b1 * (a0 + a1) == b1 * a0 + b1 * a1) by (nonlinear_arith);
    assert(a1 * b1 == b1 * a1) by (nonlinear_arith);
    if a.0 == b.0 && b.0 > 0 {
        assert(a1 < b1 <==> a1 * b0 < b1 * b0) by (nonlinear_arith)
            requires
                b0 > 0,
        ;
    }
    if a.1 == b.1 && b.1 > 0 {
        assert(b0 < a0 <==> b1 * b0 < b1 * a0) by (nonlinear_arith)
            requires
                b1 > 0,
        ;
    }
}

/// No ratio both raises and lowers parity, and one that does neither of a ratio that is on
/// keeps it.
pub proof fn ratios_raise_or_lower(a: (u8, u8), b: (u8, u8))
    ensures
        !(fec_ratio::raises(Some(a), b) && fec_ratio::lowers(b, a)),
        !fec_ratio::raises(Some(a), a),
        !fec_ratio::lowers(a, a),
        fec_ratio::on(b) && !fec_ratio::on(a) ==> fec_ratio::raises(Some(a), b)
            && fec_ratio::lowers(a, b),
        fec_ratio::on(b) ==> fec_ratio::raises(None, b),
        !fec_ratio::on(b) ==> !fec_ratio::raises(Some(a), b),
{
    ratios_compare(a, b, a);
    ratios_compare(b, a, b);
}

/// A code that is on goes off only where there is hardly any loss, and one that is off comes
/// on only where there is more: between the two thresholds it stays as it is.
pub proof fn codes_stay_between_thresholds(
    prev: Option<(u8, u8)>,
    off: bool,
    on: bool,
    plain: (u8, u8),
    floored: (u8, u8),
)
    ensures
        ({
            let r = fec_ratio::hysteresis(prev, off, on, plain, floored);
            let was_on = prev is Some && (prev->0).0 > 0 && (prev->0).1 > 0;
            &&& was_on && off ==> r == (0u8, 0u8)
            &&& was_on && !off ==> r == floored
            &&& !was_on && on ==> r == (0u8, 0u8)
            &&& !was_on && !on ==> r == plain
        }),
{
}

/// A packet is coded only where the code is switched on, nobody backs off, and the packet
/// fits a shard that the path carries; if not, it goes out as it is, and the reason is told.
pub proof fn packets_pass_uncoded(st: FecSendState, i: FecSendInput)
    ensures
        ({
            let b = fec_ratio::bypass(st, i);
            let waits = st.backoff_until is Some && st.backoff_until->0 > i.now;
            &&& b is None <==> i.enabled && !waits && i.len <= i.shard_payload_size && i.effective
                is Some && i.len <= i.effective->0
            &&& !i.enabled || waits ==> b == Some(FecRoute::Normal)
            &&& i.enabled && !waits && i.len > i.shard_payload_size ==> b == Some(
                FecRoute::OversizeBypass,
            )
            &&& i.enabled && !waits && i.len <= i.shard_payload_size && (i.effective is None
                || i.len > i.effective->0) ==> b == Some(FecRoute::MtuBypass)
        }),
{
}

/// A ratio that is set is used. One that adapts is what loss asks for, but stays what it was
/// while congestion shows and more parity is asked for, and goes a step down after that; and
/// it stays for two seconds when the code is turned on or off, and a quarter of a second
/// otherwise.
pub proof fn ratios_in_use(st: FecSendState, i: FecSendInput)
    ensures
        ({
            let r = fec_ratio::used_ratio(st, i);
            let st1 = fec_ratio::ratio_chosen(st, i);
            &&& i.forced matches Some(f) ==> r == f && st1.ratio_last == Some(f)
                && st1.ratio_last_change == Some(i.now)
            &&& i.forced is None && !i.classifier_enabled && st.ratio_last is None ==> r
                == i.adaptive
            &&& i.forced is None && st1.ratio_last is Some ==> r == st1.ratio_last->0
            &&& i.forced is None && st.ratio_last is Some && st.ratio_last_change is Some && i.now
                - st.ratio_last_change->0 < 250 ==> r == st.ratio_last->0
            &&& i.forced is None && st.ratio_last == Some((0u8, 0u8)) && st.ratio_last_change is Some
                && i.now - st.ratio_last_change->0 < 2000 ==> !fec_ratio::on(r)
            &&& i.forced is None && i.classifier_enabled && i.congestive
                ==> !fec_ratio::raises(st.ratio_last, r)
            &&& i.classifier_enabled && i.congestive ==> st1.last_congestive_at == Some(i.now)
            &&& st1.backoff_until == st.backoff_until
        }),
{
    fec_ratio::congestion_never_raises(i.adaptive, st.ratio_last);
    if st.ratio_last is Some {
        ratios_raise_or_lower(st.ratio_last->0, i.adaptive);
        ratios_raise_or_lower(st.ratio_last->0, st.ratio_last->0);
    }
}

/// After congestion has gone, parity goes one step down and not up, as long as that was
/// recent, unless less is asked for anyway.
pub proof fn parity_goes_down_after_congestion(
    proposed: (u8, u8),
    last: (u8, u8),
    at: u64,
    now: u64,
    recency: u64,
)
    requires
        fec_ratio::on(last),
        recency > 0,
    ensures
        ({
            let (stepped, r) = fec_ratio::recovered(
                proposed,
                Some(last),
                true,
                false,
                Some(at),
                now,
                recency,
            );
            &&& now - at <= recency ==> fec_ratio::lowers(r, last)
            &&& now - at > recency ==> !stepped && r == proposed
            &&& fec_ratio::lowers(proposed, last) ==> !stepped && r == proposed
        }),
{
    fec_ratio::step_down_lowers(last);
}

/// The budget of a destination is how many packets wait for it and how many may.
pub proof fn budgets_by_destination(q: QueueLens, dest: Endpoint)
    ensures
        ({
            let b = fec_tx_worker::budget_of(q, dest);
            &&& b is Some
            &&& q.lens@.dom().contains(dest) ==> (b->0).0 == q.lens@[dest]
            &&& !q.lens@.dom().contains(dest) ==> (b->0).0 == 0
            &&& q.cap > 0 ==> (b->0).1 == q.cap
            &&& (b->0).1 > 0
        }),
{
}

/// A request to let packets go as they are outlasts one to close groups, whichever came
/// first.
pub proof fn drains_outlast_flushes(cur: u8, drain: bool)
    ensures
        fec_tx_worker::flush_request(cur, drain) >= cur,
        drain ==> fec_tx_worker::flush_request(cur, drain) >= 2,
        fec_tx_worker::flush_request(cur, drain) >= 1,
        cur <= 1 && !drain ==> fec_tx_worker::flush_request(cur, drain) == 1,
{
}

/// When the time of a group has come, what waits goes out: coded where it can be, and as it
/// is while the link is drained. Nothing stays behind.
pub proof fn due_groups_go_out(e: EncoderView, drain: bool, budget: Option<(usize, usize)>, now: u64)
    ensures
        ({
            let (out, e1) = fec_tx_worker::due_flushed(e, drain, budget);
            &&& e1.pending.len() == 0
            &&& drain && e.pending.len() > 0 ==> out == OutputView::Passthrough(e.pending)
            &&& e.pending.len() == 0 ==> out is Buffered
            &&& out matches OutputView::Passthrough(v) ==> v == e.pending
            &&& fec_tx_worker::due(e, now) <==> e.first_at is Some && now - e.first_at->0
                >= e.timeout || e.first_at is Some && e.timeout == 0
        }),
{
}

/// The encoders of destinations are apart: a packet goes to that of its destination, and no
/// other encoder changes. Where the code is off, it goes out as it is, by itself.
pub proof fn packets_go_to_their_encoder(
    w: WorkerState,
    dest: Endpoint,
    salt: u32,
    pkt: Seq<u8>,
    data: u8,
    parity: u8,
    budget: Option<(usize, usize)>,
    hints: Hints,
    now: u64,
    out: Seq<OutputView>,
    w1: WorkerState,
    other: Endpoint,
)
    requires
        fec_tx_worker::push_done(w, dest, salt, pkt, data, parity, budget, hints, now, out, w1),
        other != dest,
    ensures
        w1.encoders@.dom().contains(other) <==> w.encoders@.dom().contains(other),
        w.encoders@.dom().contains(other) ==> w1.encoders@[other]@ == w.encoders@[other]@,
        !w.encode_enabled ==> out == seq![OutputView::Passthrough(seq![pkt])],
        w.encode_enabled ==> w1.encoders@.dom().contains(dest) && w1.encoders@[dest]@.data == data
            && w1.encoders@[dest]@.parity == parity && w1.encoders@[dest]@.shard == w.tuning.shard,
        w1.hints@.dom().contains(dest) && w1.hints@[dest] == hints,
        w1.tuning == w.tuning && w1.encode_enabled == w.encode_enabled && w1.frame_type
            == w.frame_type,
{
    let m0 = fec_tx_worker::encoder_views(w.encoders@);
    let m1 = fec_tx_worker::encoder_views(w1.encoders@);
    assert(m0.dom().contains(other) <==> w.encoders@.dom().contains(other));
    assert(m1.dom().contains(other) <==> w1.encoders@.dom().contains(other));
    if w.encode_enabled {
        let e = fec_tx_worker::encoder_for(w, dest, salt, data, parity);
        fec_tx_worker::encoder_takes_on_tuning(e, w.tuning, data, parity, pkt, budget, now);
        assert(m1.dom().contains(dest));
        assert(m1[dest] == w1.encoders@[dest]@);
        if w.encoders@.dom().contains(other) {
            assert(m1[other] == w1.encoders@[other]@);
            assert(m0[other] == w.encoders@[other]@);
        }
    }
}

/// A new encoder has no packet, and a number that tells its groups from those of others; one
/// that is there is used again.
pub proof fn encoders_for_destinations(w: WorkerState, dest: Endpoint, salt: u32, data: u8, parity: u8)
    ensures
        ({
            let e = fec_tx_worker::encoder_for(w, dest, salt, data, parity);
            &&& w.encoders@.dom().contains(dest) ==> e == w.encoders@[dest]@
            &&& !w.encoders@.dom().contains(dest) ==> e.pending.len() == 0 && e.first_at is None
                && e.data == data && e.parity == parity && e.shard == w.tuning.shard && e.standard
                == w.tuning.flush_std && e.aggressive == w.tuning.flush_agg && e.frame_type
                == w.frame_type && e.salt != 0 && (salt != 0 ==> e.salt == salt)
        }),
{
}

/// What commands do: all but two close all groups and end their encoders; one that takes a
/// peer out takes its encoder alone; only the last one ends the worker.
pub proof fn commands_to_the_worker(
    w: WorkerState,
    cmd: FecTxControl,
    q: QueueLens,
    out: Seq<(Endpoint, OutputView)>,
    stop: bool,
    w1: WorkerState,
    d: Endpoint,
)
    requires
        fec_tx_worker::control_done(w, cmd, q, out, stop, w1),
    ensures
        stop <==> cmd is Stop,
        cmd is FlushAll || cmd is Retune || cmd is ResetSession || cmd is Stop
            ==> !w1.encoders@.dom().contains(d) && out.len() == w.encoders.entries@.len(),
        cmd matches FecTxControl::Retune(t) ==> w1.tuning == t,
        !(cmd is Retune) ==> w1.tuning == w.tuning,
        cmd matches FecTxControl::SetEncodeEnabled { enabled } ==> w1.encode_enabled == enabled
            && out.len() == 0 && w1.encoders == w.encoders,
        cmd matches FecTxControl::RemovePeer { dest } ==> out.len() == 0 && (
        w1.encoders@.dom().contains(d) <==> w.encoders@.dom().contains(d) && d != dest) && (
        w1.hints@.dom().contains(d) <==> w.hints@.dom().contains(d) && d != dest),
        cmd is ResetSession ==> w1.encode_enabled && !w1.hints@.dom().contains(d),
        !(cmd is ResetSession || cmd is SetEncodeEnabled) ==> w1.encode_enabled == w.encode_enabled,
{
}

/// When groups are closed because they have waited, exactly those give something out that
/// have, each for its own destination, in their order.
pub proof fn waiting_groups_go_out(
    s: Seq<(Endpoint, fec::FecEncoder)>,
    drain: bool,
    q: QueueLens,
    now: u64,
    n: nat,
)
    requires
        n <= s.len(),
    ensures
        ({
            let out = fec_tx_worker::due_outputs(s, drain, q, now, n);
            let waited = s.take(n as int).filter(
                |e: (Endpoint, fec::FecEncoder)| fec_tx_worker::due(e.1@, now),
            );
            &&& out.len() == waited.len()
            &&& forall|i: int|
                0 <= i < out.len() ==> (#[trigger] out[i]).0 == waited[i].0 && out[i].1
                    == fec_tx_worker::due_flushed(
                    waited[i].1@,
                    drain,
                    fec_tx_worker::budget_of(q, waited[i].0),
                ).0
        }),
    decreases n,
{
    reveal(Seq::filter);
    let p = |e: (Endpoint, fec::FecEncoder)| fec_tx_worker::due(e.1@, now);
    let t = s.take(n as int);
    if n > 0 {
        waiting_groups_go_out(s, drain, q, now, (n - 1) as nat);
        assert(t.drop_last() =~= s.take(n - 1));
        assert(t.last() == s[n - 1]);
        let a = t.drop_last().filter(p);
        let b = t.filter(p);
        let r = fec_tx_worker::due_outputs(s, drain, q, now, (n - 1) as nat);
        let out = fec_tx_worker::due_outputs(s, drain, q, now, n);
        assert forall|i: int| 0 <= i < out.len() implies (#[trigger] out[i]).0 == b[i].0 && out[i].1
            == fec_tx_worker::due_flushed(
            b[i].1@,
            drain,
            fec_tx_worker::budget_of(q, b[i].0),
        ).0 by {
            if i < r.len() {
                assert(out[i] == r[i]);
                assert(b[i] == a[i]);
            }
        }
    } else {
        assert(t =~= Seq::<(Endpoint, fec::FecEncoder)>::empty());
    }
}

/// A packet that comes with another size of shards first closes the group that waits, then
/// joins with the new size; with another ratio likewise. What waited is not lost.
pub proof fn other_shards_close_the_group(
    e: EncoderView,
    t: FecTxTuning,
    data: u8,
    parity: u8,
    pkt: Seq<u8>,
    budget: Option<(usize, usize)>,
    now: u64,
)
    requires
        e.pending.len() > 0,
    ensures
        ({
            let (out, e1) = fec_tx_worker::push_steps(e, t, data, parity, pkt, budget, now);
            &&& out.len() == 3
            &&& e.shard != t.shard ==> out[0] !is Buffered
            &&& e.shard == t.shard ==> out[0] is Buffered
            &&& e.shard == t.shard && (e.data != data || e.parity != parity) ==> out[1] !is Buffered
            &&& e.shard == t.shard && e.data == data && e.parity == parity ==> out[1] is Buffered
        }),
{
}

} // verus!
