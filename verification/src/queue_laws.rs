//! What holds of the pacer's queues: who goes first, and who loses a packet.

use crate::addr::Endpoint;
use crate::lane;
use crate::lane::{LaneView, QueuedData};
use crate::lane_map;
use crate::pacing;
use crate::pacing::{NextPacket, PacerView, PeerTerms, QueuedPacket};
use vstd::prelude::*;

verus! {

/// The same packets wait for the same destinations, in the same order.
pub open spec fn same_data(a: PacerView, b: PacerView) -> bool {
    &&& a.lanes.len() == b.lanes.len()
    &&& forall|i: int|
        0 <= i < a.lanes.len() ==> (#[trigger] a.lanes[i]).0 == b.lanes[i].0 && a.lanes[i].1.small
            == b.lanes[i].1.small && a.lanes[i].1.bulk == b.lanes[i].1.bulk
}

/// The packet was the first of one lane of its destination, and is gone from there; all
/// others wait as before.
pub open spec fn first_of_lane_taken(a: PacerView, b: PacerView, e: QueuedData, dest: Endpoint, i: int) -> bool {
    &&& a.lanes.len() == b.lanes.len()
    &&& 0 <= i < a.lanes.len()
    &&& a.lanes[i].0 == dest
    &&& forall|j: int| 0 <= j < a.lanes.len() ==> (#[trigger] a.lanes[j]).0 == b.lanes[j].0
    &&& forall|j: int|
        0 <= j < a.lanes.len() && j != i ==> (#[trigger] a.lanes[j]).1.small == b.lanes[j].1.small
            && a.lanes[j].1.bulk == b.lanes[j].1.bulk
    &&& {
        ||| a.lanes[i].1.small =~= seq![e] + b.lanes[i].1.small && a.lanes[i].1.bulk
            == b.lanes[i].1.bulk
        ||| a.lanes[i].1.bulk =~= seq![e] + b.lanes[i].1.bulk && a.lanes[i].1.small
            == b.lanes[i].1.small
    }
}

/// What a turn of the destinations does: the control packets and those to send again stay;
/// a data packet comes from the front of a lane, or nothing is taken.
spec fn data_taken(a: PacerView, p: Option<NextPacket>, b: PacerView) -> bool {
    &&& b.control == a.control
    &&& b.rtx == a.rtx
    &&& b.interleave == a.interleave
    &&& b.cfg == a.cfg
    &&& match p {
        None => same_data(a, b),
        Some(NextPacket::Control(_)) => false,
        Some(NextPacket::Data { pkt, dest, enqueued_at }) => exists|i: int| #[trigger]
            first_of_lane_taken(a, b, QueuedData { pkt, enqueued_at }, dest, i),
    }
}

proof fn data_taken_later(a: PacerView, m: PacerView, p: Option<NextPacket>, b: PacerView)
    requires
        data_taken(a, None, m),
        data_taken(m, p, b),
    ensures
        data_taken(a, p, b),
{
    if let Some(NextPacket::Data { pkt, dest, enqueued_at }) = p {
        let e = QueuedData { pkt, enqueued_at };
        let i = choose|i: int| #[trigger] first_of_lane_taken(m, b, e, dest, i);
        assert(a.lanes[i].0 == m.lanes[i].0);
        assert forall|j: int| 0 <= j < a.lanes.len() implies (#[trigger] a.lanes[j]).0
            == b.lanes[j].0 by {
            assert(m.lanes[j].0 == b.lanes[j].0);
        }
        assert forall|j: int| 0 <= j < a.lanes.len() && j != i implies (#[trigger] a.lanes[j]).1.small
            == b.lanes[j].1.small && a.lanes[j].1.bulk == b.lanes[j].1.bulk by {
            assert(m.lanes[j].1.small == b.lanes[j].1.small);
        }
        assert(first_of_lane_taken(a, b, e, dest, i));
    } else {
        assert forall|j: int| 0 <= j < a.lanes.len() implies (#[trigger] a.lanes[j]).0
            == b.lanes[j].0 && a.lanes[j].1.small == b.lanes[j].1.small && a.lanes[j].1.bulk
            == b.lanes[j].1.bulk by {
            assert(m.lanes[j].0 == b.lanes[j].0);
        }
    }
}

proof fn served_takes_first(v: PacerView, i: int, now: u64)
    requires
        0 <= i < v.lanes.len(),
        v.lanes[i].1.small.len() + v.lanes[i].1.bulk.len() > 0,
    ensures
        data_taken(v, Some(pacing::served(v, i, now).0), pacing::served(v, i, now).1),
{
    let (p, b) = pacing::served(v, i, now);
    if let NextPacket::Data { pkt, dest, enqueued_at } = p {
        let e = QueuedData { pkt, enqueued_at };
        let l = v.lanes[i].1;
        if lane::takes_small(l, pacing::lane_cfg(v.cfg), now) {
            assert(l.small =~= seq![e] + b.lanes[i].1.small);
        } else {
            assert(l.bulk =~= seq![e] + b.lanes[i].1.bulk);
        }
        assert(first_of_lane_taken(v, b, e, dest, i));
    }
}

proof fn plain_turn_takes_first(v: PacerView, i: int, open: bool, now: u64)
    requires
        0 <= i < v.lanes.len(),
    ensures
        data_taken(v, pacing::plain_turn(v, i, open, now).0, pacing::plain_turn(v, i, open, now).1),
        open && v.lanes[i].1.small.len() + v.lanes[i].1.bulk.len() > 0 ==> pacing::plain_turn(
            v,
            i,
            open,
            now,
        ).0 is Some,
{
    if lane::lane_len(v.lanes[i].1) > 0 {
        served_takes_first(v, i, now);
    }
}

proof fn counted_turn_takes_first(v: PacerView, i: int, t: PeerTerms, now: u64)
    requires
        0 <= i < v.lanes.len(),
    ensures
        data_taken(v, pacing::counted_turn(v, i, t, now).0, pacing::counted_turn(v, i, t, now).1),
{
    let l = v.lanes[i].1;
    let front = lane::front_bytes(l, pacing::lane_cfg(v.cfg), now);
    let c = pacing::credit(l.deficit, t.quantum, front);
    let w = PacerView {
        lanes: pacing::lanes_set(v.lanes, i, LaneView { deficit: (c - front) as usize, ..l }),
        ..v
    };
    if lane::lane_len(l) > 0 {
        served_takes_first(w, i, now);
        assert(data_taken(v, None, w));
        data_taken_later(v, w, Some(pacing::served(w, i, now).0), pacing::served(w, i, now).1);
    }
}

proof fn plain_turns_take_first(v: PacerView, terms: Seq<PeerTerms>, now: u64, k: nat)
    requires
        v.lanes.len() > 0,
    ensures
        data_taken(v, pacing::plain_turns(v, terms, now, k).0, pacing::plain_turns(v, terms, now, k).1),
    decreases k,
{
    if k > 0 {
        let i = v.cursor as int % v.lanes.len() as int;
        let w = PacerView { cursor: pacing::next_turn(v.cursor), ..v };
        plain_turn_takes_first(w, i, terms[i].open, now);
        let (p, m) = pacing::plain_turn(w, i, terms[i].open, now);
        assert(data_taken(v, None, w));
        data_taken_later(v, w, p, m);
        if p is None {
            plain_turns_take_first(m, terms, now, (k - 1) as nat);
            let (q, b) = pacing::plain_turns(m, terms, now, (k - 1) as nat);
            data_taken_later(v, m, q, b);
        }
    }
}

proof fn in_order_takes_first(v: PacerView, terms: Seq<PeerTerms>, now: u64, i: int)
    requires
        0 <= i,
    ensures
        data_taken(v, pacing::in_order(v, terms, now, i).0, pacing::in_order(v, terms, now, i).1),
    decreases v.lanes.len() - i,
{
    if i < v.lanes.len() {
        plain_turn_takes_first(v, i, terms[i].open, now);
        let (p, m) = pacing::plain_turn(v, i, terms[i].open, now);
        if p is None {
            in_order_takes_first(m, terms, now, i + 1);
            let (q, b) = pacing::in_order(m, terms, now, i + 1);
            data_taken_later(v, m, q, b);
        }
    }
}

proof fn counted_turns_take_first(v: PacerView, hits: u64, terms: Seq<PeerTerms>, now: u64, k: nat)
    requires
        v.lanes.len() > 0,
    ensures
        data_taken(
            v,
            pacing::counted_turns(v, hits, terms, now, k).0,
            pacing::counted_turns(v, hits, terms, now, k).1,
        ),
    decreases k,
{
    if k > 0 {
        let i = v.cursor as int % v.lanes.len() as int;
        let h = if pacing::turn_is_scaled(v, i, terms[i]) {
            crate::apd::bumped(hits)
        } else {
            hits
        };
        let w = PacerView { cursor: pacing::next_turn(v.cursor), ..v };
        counted_turn_takes_first(w, i, terms[i], now);
        let (p, m) = pacing::counted_turn(w, i, terms[i], now);
        assert(data_taken(v, None, w));
        data_taken_later(v, w, p, m);
        if p is None {
            counted_turns_take_first(m, h, terms, now, (k - 1) as nat);
            let (q, b) = pacing::counted_turns(m, h, terms, now, (k - 1) as nat);
            data_taken_later(v, m, q, b);
        }
    }
}

proof fn data_next_takes_first(v: PacerView, terms: Seq<PeerTerms>, freeze: bool, now: u64)
    ensures
        data_taken(
            v,
            pacing::data_next(v, terms, freeze, now).0,
            pacing::data_next(v, terms, freeze, now).1,
        ),
{
    let n = v.lanes.len();
    if n > 0 {
        plain_turns_take_first(v, terms, now, n);
        counted_turns_take_first(v, 0, terms, now, 2 * n);
    }
    in_order_takes_first(v, terms, now, 0);
}

/// The packet that goes out was the first of its queue, and only it leaves: a packet to
/// send again, if one waits; else the control packet that waits longest, or the first
/// packet of a lane of some destination. Nothing goes out only where no packet to send
/// again and no control packet waits.
pub proof fn first_of_a_queue_goes_out(
    v: PacerView,
    terms: Seq<PeerTerms>,
    freeze: bool,
    now: u64,
)
    ensures
        ({
            let (p, w) = pacing::popped(v, terms, freeze, now);
            if v.rtx.len() > 0 {
                &&& p == Some(NextPacket::Control(v.rtx[0]))
                &&& v.rtx =~= seq![v.rtx[0]] + w.rtx
                &&& w.control == v.control
                &&& same_data(v, w)
            } else {
                &&& w.rtx == v.rtx
                &&& match p {
                    None => v.control.len() == 0 && w.control == v.control && same_data(v, w),
                    Some(NextPacket::Control(q)) => v.control =~= seq![q] + w.control && same_data(
                        v,
                        w,
                    ),
                    Some(NextPacket::Data { pkt, dest, enqueued_at }) => w.control == v.control
                        && exists|i: int| #[trigger]
                        first_of_lane_taken(v, w, QueuedData { pkt, enqueued_at }, dest, i),
                }
            }
        }),
{
    if v.rtx.len() == 0 {
        let (p, v1) = pacing::interleaved(v, now);
        if p is Some {
            assert(v.control =~= seq![v.control[0]] + v1.control);
        } else {
            data_next_takes_first(v1, terms, freeze, now);
            let (q, v2) = pacing::data_next(v1, terms, freeze, now);
            assert(data_taken(v, None, PacerView { interleave: v.interleave, ..v1 }));
            if let Some(NextPacket::Data { pkt, dest, enqueued_at }) = q {
                let e = QueuedData { pkt, enqueued_at };
                let i = choose|i: int| #[trigger] first_of_lane_taken(v1, v2, e, dest, i);
                assert(first_of_lane_taken(v, v2, e, dest, i));
            } else {
                assert(same_data(v, v2));
                let (r, v3) = pacing::control_next(v2);
                if r is Some {
                    assert(v.control =~= seq![v.control[0]] + v3.control);
                }
            }
        }
    } else {
        assert(v.rtx =~= seq![v.rtx[0]] + v.rtx.skip(1));
    }
}

/// What happens to the control packets: one comes, or the next packet is asked for.
pub ghost enum ControlStep {
    Comes(QueuedPacket),
    Next { terms: Seq<PeerTerms>, freeze: bool, now: u64 },
}

/// The queues after the first `n` steps.
pub open spec fn after_steps(v: PacerView, steps: Seq<ControlStep>, n: nat) -> PacerView
    decreases n,
{
    if n == 0 {
        v
    } else {
        let w = after_steps(v, steps, (n - 1) as nat);
        match steps[n - 1] {
            ControlStep::Comes(p) => pacing::control_enqueued(w, p, false).1,
            ControlStep::Next { terms, freeze, now } => pacing::popped(w, terms, freeze, now).1,
        }
    }
}

/// The control packets that came in the first `n` steps.
pub open spec fn control_came(steps: Seq<ControlStep>, n: nat) -> Seq<QueuedPacket>
    decreases n,
{
    if n == 0 {
        Seq::empty()
    } else {
        let before = control_came(steps, (n - 1) as nat);
        match steps[n - 1] {
            ControlStep::Comes(p) => before.push(p),
            ControlStep::Next { .. } => before,
        }
    }
}

/// The control packets that went out in the first `n` steps.
pub open spec fn control_went(v: PacerView, steps: Seq<ControlStep>, n: nat) -> Seq<QueuedPacket>
    decreases n,
{
    if n == 0 {
        Seq::empty()
    } else {
        let before = control_went(v, steps, (n - 1) as nat);
        match steps[n - 1] {
            ControlStep::Comes(_) => before,
            ControlStep::Next { terms, freeze, now } => match pacing::popped(
                after_steps(v, steps, (n - 1) as nat),
                terms,
                freeze,
                now,
            ).0 {
                Some(NextPacket::Control(p)) => before.push(p),
                _ => before,
            },
        }
    }
}

/// Control packets leave in the order in which they came: those that went out, followed by
/// those that still wait, are those that waited, followed by those that came.
pub proof fn control_packets_keep_their_order(v: PacerView, steps: Seq<ControlStep>, n: nat)
    requires
        n <= steps.len(),
        v.rtx.len() == 0,
        v.control.len() + steps.len() <= v.cfg.max_control_queue_packets,
    ensures
        control_went(v, steps, n) + after_steps(v, steps, n).control == v.control + control_came(
            steps,
            n,
        ),
        after_steps(v, steps, n).rtx.len() == 0,
        after_steps(v, steps, n).cfg == v.cfg,
        after_steps(v, steps, n).control.len() <= v.control.len() + n,
    decreases n,
{
    if n == 0 {
        assert(control_went(v, steps, 0) + v.control =~= v.control + control_came(steps, 0));
    } else {
        let m = (n - 1) as nat;
        control_packets_keep_their_order(v, steps, m);
        let w = after_steps(v, steps, m);
        let went = control_went(v, steps, m);
        let came = control_came(steps, m);
        match steps[n - 1] {
            ControlStep::Comes(p) => {
                let b = pacing::control_enqueued(w, p, false).1;
                assert(b.control =~= w.control.push(p));
                assert(went + b.control =~= (went + w.control).push(p));
                assert(v.control + came.push(p) =~= (v.control + came).push(p));
            },
            ControlStep::Next { terms, freeze, now } => {
                first_of_a_queue_goes_out(w, terms, freeze, now);
                popped_keeps_settings(w, terms, freeze, now);
                let (p, b) = pacing::popped(w, terms, freeze, now);
                if let Some(NextPacket::Control(q)) = p {
                    assert(went.push(q) + b.control =~= went + w.control);
                }
            },
        }
    }
}

proof fn popped_keeps_settings(v: PacerView, terms: Seq<PeerTerms>, freeze: bool, now: u64)
    ensures
        pacing::popped(v, terms, freeze, now).1.cfg == v.cfg,
        v.rtx.len() == 0 ==> pacing::popped(v, terms, freeze, now).1.interleave == if v.interleave
            == 255 {
            0
        } else {
            v.interleave + 1
        },
        v.rtx.len() > 0 ==> pacing::popped(v, terms, freeze, now).1.interleave == v.interleave,
{
    if v.rtx.len() == 0 {
        let (p, v1) = pacing::interleaved(v, now);
        data_next_takes_first(v1, terms, freeze, now);
    }
}

/// A control packet that comes waits behind all others. It pushes out the oldest, and only
/// where the queue is full; the queue never holds more than it may. The data packets and
/// those to send again wait as before.
pub proof fn control_waits_behind_the_others(v: PacerView, p: QueuedPacket)
    ensures
        ({
            let (dropped, w) = pacing::control_enqueued(v, p, false);
            let room = if v.cfg.max_control_queue_packets < 1 {
                1
            } else {
                v.cfg.max_control_queue_packets as int
            };
            let lost = if v.control.len() >= room {
                v.control.len() - room + 1
            } else {
                0
            };
            &&& w.control =~= v.control.subrange(lost, v.control.len() as int) + seq![p]
            &&& w.control.len() <= room
            &&& dropped <==> v.control.len() >= room
            &&& 0 < v.control.len() < room ==> w.control[0] == v.control[0]
            &&& w.rtx == v.rtx
            &&& w.lanes == v.lanes
            &&& v.n.dropped_control_normal + lost <= u64::MAX ==> w.n.dropped_control_normal
                == v.n.dropped_control_normal + lost
        }),
{
}

/// A packet to send again waits behind the others of its kind. It pushes out the oldest,
/// and only where the queue is full. Data and control packets wait as before.
pub proof fn repeats_wait_behind_the_others(v: PacerView, p: QueuedPacket)
    ensures
        ({
            let (dropped, w) = pacing::control_enqueued(v, p, true);
            let room = if v.cfg.max_retransmit_queue_packets < 1 {
                1
            } else {
                v.cfg.max_retransmit_queue_packets as int
            };
            let lost = if v.rtx.len() >= room {
                v.rtx.len() - room + 1
            } else {
                0
            };
            &&& w.rtx =~= v.rtx.subrange(lost, v.rtx.len() as int) + seq![p]
            &&& w.rtx.len() <= room
            &&& dropped <==> v.rtx.len() >= room
            &&& w.control == v.control
            &&& w.lanes == v.lanes
            &&& v.n.dropped_control_retransmit + lost <= u64::MAX
                ==> w.n.dropped_control_retransmit == v.n.dropped_control_retransmit + lost
        }),
{
}

/// A control packet that was put back is the next control packet to go out.
pub proof fn put_back_control_is_next(
    v: PacerView,
    q: QueuedPacket,
    terms: Seq<PeerTerms>,
    freeze: bool,
    now: u64,
)
    requires
        v.rtx.len() == 0,
    ensures
        ({
            let b = pacing::requeued(v, NextPacket::Control(q));
            let (p, w) = pacing::popped(b, terms, freeze, now);
            &&& b.control =~= seq![q] + v.control
            &&& same_data(v, b)
            &&& p is Some
            &&& p matches Some(NextPacket::Control(r)) ==> r == q && w.control == v.control
        }),
{
    let b = pacing::requeued(v, NextPacket::Control(q));
    first_of_a_queue_goes_out(b, terms, freeze, now);
    let (p, w) = pacing::popped(b, terms, freeze, now);
    if let Some(NextPacket::Control(r)) = p {
        assert(b.control[0] == q);
        assert((seq![r] + w.control)[0] == r);
        assert(b.control.skip(1) =~= v.control);
        assert((seq![r] + w.control).skip(1) =~= w.control);
    }
}

/// At every fourth packet a control packet has its turn, and at every second where half of
/// the queue is full or the first has waited for eight milliseconds. One that finds the
/// queue empty has its turn at once.
pub proof fn control_has_its_turn(v: PacerView, terms: Seq<PeerTerms>, freeze: bool, now: u64)
    requires
        v.rtx.len() == 0,
        v.control.len() > 0,
    ensures
        v.interleave % 4 == 3 ==> pacing::popped(v, terms, freeze, now).0 == Some(
            NextPacket::Control(v.control[0]),
        ),
        v.interleave % 2 == 1 && (v.control.len() * 2 >= v.cfg.max_control_queue_packets
            || now - v.control[0].enqueued_at >= 8000) && v.cfg.max_control_queue_packets >= 1
            ==> pacing::popped(v, terms, freeze, now).0 == Some(NextPacket::Control(v.control[0])),
{
    let count = if v.interleave == u8::MAX {
        0u8
    } else {
        (v.interleave + 1) as u8
    };
    let share = pacing::control_share(v, now);
    assert(share == 2 || share == 4);
    if v.interleave % 4 == 3 {
        assert(count % 4 == 0 && count % 2 == 0);
        assert(count % share == 0);
    }
    if v.interleave % 2 == 1 {
        assert(count % 2 == 0);
    }
}

/// A control packet that comes when no other waits is the next packet to go out, unless one
/// is to be sent again.
pub proof fn lone_control_goes_out_at_once(
    v: PacerView,
    p: QueuedPacket,
    terms: Seq<PeerTerms>,
    freeze: bool,
    now: u64,
)
    requires
        v.rtx.len() == 0,
        v.control.len() == 0,
    ensures
        pacing::popped(pacing::control_enqueued(v, p, false).1, terms, freeze, now).0 == Some(
            NextPacket::Control(p),
        ),
{
    let w = pacing::control_enqueued(v, p, false).1;
    assert(w.control =~= seq![p]);
    control_has_its_turn(w, terms, freeze, now);
}

/// Of any four packets that are taken one after the other, one is a control packet where
/// one waits.
pub proof fn control_is_one_of_four(
    v: PacerView,
    t0: Seq<PeerTerms>,
    t1: Seq<PeerTerms>,
    t2: Seq<PeerTerms>,
    t3: Seq<PeerTerms>,
    freeze: bool,
    now: u64,
)
    requires
        v.rtx.len() == 0,
        v.control.len() > 0,
    ensures
        ({
            let (p0, v0) = pacing::popped(v, t0, freeze, now);
            let (p1, v1) = pacing::popped(v0, t1, freeze, now);
            let (p2, v2) = pacing::popped(v1, t2, freeze, now);
            let (p3, v3) = pacing::popped(v2, t3, freeze, now);
            let first = Some(NextPacket::Control(v.control[0]));
            p0 == first || p1 == first || p2 == first || p3 == first
        }),
{
    let first = Some(NextPacket::Control(v.control[0]));
    let (p0, v0) = pacing::popped(v, t0, freeze, now);
    let (p1, v1) = pacing::popped(v0, t1, freeze, now);
    let (p2, v2) = pacing::popped(v1, t2, freeze, now);
    first_of_a_queue_goes_out(v, t0, freeze, now);
    popped_keeps_settings(v, t0, freeze, now);
    control_has_its_turn(v, t0, freeze, now);
    if p0 is Some && p0->0 is Control {
        assert(v.control[0] == p0->0->Control_0);
    } else {
        first_of_a_queue_goes_out(v0, t1, freeze, now);
        popped_keeps_settings(v0, t1, freeze, now);
        control_has_its_turn(v0, t1, freeze, now);
        if p1 is Some && p1->0 is Control {
            assert(v0.control[0] == p1->0->Control_0);
        } else {
            first_of_a_queue_goes_out(v1, t2, freeze, now);
            popped_keeps_settings(v1, t2, freeze, now);
            control_has_its_turn(v1, t2, freeze, now);
            if p2 is Some && p2->0 is Control {
                assert(v1.control[0] == p2->0->Control_0);
            } else {
                control_has_its_turn(v2, t3, freeze, now);
            }
        }
    }
}

/// The small packets that wait for a destination.
pub open spec fn small_for(v: PacerView, d: Endpoint) -> Seq<QueuedData> {
    if exists|i: int| 0 <= i < v.lanes.len() && (#[trigger] v.lanes[i]).0 == d {
        v.lanes[choose|i: int| 0 <= i < v.lanes.len() && (#[trigger] v.lanes[i]).0 == d].1.small
    } else {
        Seq::empty()
    }
}

/// The other packets that wait for a destination.
pub open spec fn bulk_for(v: PacerView, d: Endpoint) -> Seq<QueuedData> {
    if exists|i: int| 0 <= i < v.lanes.len() && (#[trigger] v.lanes[i]).0 == d {
        v.lanes[choose|i: int| 0 <= i < v.lanes.len() && (#[trigger] v.lanes[i]).0 == d].1.bulk
    } else {
        Seq::empty()
    }
}

/// No destination has two pairs of lanes.
pub open spec fn told_apart(v: PacerView) -> bool {
    forall|i: int, j: int|
        0 <= i < j < v.lanes.len() ==> (#[trigger] v.lanes[i]).0 != (#[trigger] v.lanes[j]).0
}

proof fn lanes_of(v: PacerView, d: Endpoint, i: int)
    requires
        told_apart(v),
        0 <= i < v.lanes.len(),
        v.lanes[i].0 == d,
    ensures
        small_for(v, d) == v.lanes[i].1.small,
        bulk_for(v, d) == v.lanes[i].1.bulk,
{
    let j = choose|j: int| 0 <= j < v.lanes.len() && (#[trigger] v.lanes[j]).0 == d;
    assert(v.lanes[j].0 == d);
    assert(i == j);
}

/// What does not change where only the lanes of `d` do, or a pair of lanes for `d` is added.
proof fn others_unchanged(a: PacerView, b: PacerView, d: Endpoint, x: Endpoint)
    requires
        told_apart(a),
        told_apart(b),
        b.lanes.len() >= a.lanes.len(),
        forall|i: int| 0 <= i < a.lanes.len() ==> (#[trigger] a.lanes[i]).0 == b.lanes[i].0,
        forall|i: int|
            0 <= i < a.lanes.len() && a.lanes[i].0 != d ==> (#[trigger] a.lanes[i]).1.small
                == b.lanes[i].1.small && a.lanes[i].1.bulk == b.lanes[i].1.bulk,
        forall|i: int| a.lanes.len() <= i < b.lanes.len() ==> (#[trigger] b.lanes[i]).0 == d,
        x != d,
    ensures
        small_for(b, x) == small_for(a, x),
        bulk_for(b, x) == bulk_for(a, x),
{
    if exists|i: int| 0 <= i < a.lanes.len() && (#[trigger] a.lanes[i]).0 == x {
        let i = choose|i: int| 0 <= i < a.lanes.len() && (#[trigger] a.lanes[i]).0 == x;
        lanes_of(a, x, i);
        assert(b.lanes[i].0 == x);
        lanes_of(b, x, i);
    } else {
        assert forall|i: int| 0 <= i < b.lanes.len() implies (#[trigger] b.lanes[i]).0 != x by {
            if i < a.lanes.len() {
                assert(a.lanes[i].0 == b.lanes[i].0);
            }
        }
    }
}

/// The lanes of a destination hold the packets that wait for it, and those of others stay
/// where they are.
pub proof fn lane_is_there(v: PacerView, d: Endpoint)
    requires
        told_apart(v),
    ensures
        ({
            let s = pacing::with_lane(v.lanes, d);
            let i = pacing::lane_ix(s, d);
            &&& 0 <= i < s.len()
            &&& s[i].0 == d
            &&& s[i].1.small == small_for(v, d)
            &&& s[i].1.bulk == bulk_for(v, d)
            &&& s.len() >= v.lanes.len()
            &&& forall|j: int| 0 <= j < v.lanes.len() ==> s[j] == v.lanes[j]
            &&& forall|j: int| v.lanes.len() <= j < s.len() ==> (#[trigger] s[j]).0 == d
            &&& told_apart(PacerView { lanes: s, ..v })
        }),
{
    let s = pacing::with_lane(v.lanes, d);
    let i = pacing::lane_ix(s, d);
    if pacing::has_lane(v.lanes, d) {
        assert(lane_map::lane_at(s, d, i));
        lanes_of(v, d, i);
    } else {
        let n = v.lanes.len() as int;
        assert(lane_map::lane_at(s, d, n));
        assert(lane_map::lane_at(s, d, i));
        assert forall|j: int| 0 <= j < n implies (#[trigger] v.lanes[j]).0 != d by {
            assert(!lane_map::lane_at(v.lanes, d, j));
        }
        assert(i == n);
        let w = PacerView { lanes: s, ..v };
        assert forall|a: int, b: int| 0 <= a < b < w.lanes.len() implies (#[trigger] w.lanes[a]).0
            != (#[trigger] w.lanes[b]).0 by {
            assert(w.lanes[a] == v.lanes[a]);
            if b < n {
                assert(w.lanes[b] == v.lanes[b]);
            }
        }
    }
}

proof fn lane_set_for(v: PacerView, d: Endpoint, l: LaneView, b: PacerView)
    requires
        told_apart(v),
        b.lanes == pacing::lanes_set(
            pacing::with_lane(v.lanes, d),
            pacing::lane_ix(pacing::with_lane(v.lanes, d), d),
            l,
        ),
    ensures
        told_apart(b),
        small_for(b, d) == l.small,
        bulk_for(b, d) == l.bulk,
        forall|x: Endpoint|
            x != d ==> #[trigger] small_for(b, x) == small_for(v, x) && bulk_for(b, x) == bulk_for(
                v,
                x,
            ),
{
    lane_is_there(v, d);
    let s = pacing::with_lane(v.lanes, d);
    let i = pacing::lane_ix(s, d);
    assert forall|j: int, k: int| 0 <= j < k < b.lanes.len() implies (#[trigger] b.lanes[j]).0 != (
    #[trigger] b.lanes[k]).0 by {
        let w = PacerView { lanes: s, ..v };
        assert(w.lanes[j].0 != w.lanes[k].0);
    }
    lanes_of(b, d, i);
    assert forall|x: Endpoint| x != d implies #[trigger] small_for(b, x) == small_for(v, x)
        && bulk_for(b, x) == bulk_for(v, x) by {
        others_unchanged(v, b, d, x);
    }
}

/// A packet for a destination waits behind the others of its lane: in that of small packets
/// where small ones go first and it is shorter than the threshold, else in the other. Where
/// the destination has as many packets as it may, its oldest large packet is dropped for
/// it, or its oldest small one if there is no other. No other destination's packets, and no
/// control packet, is touched.
pub proof fn data_waits_behind_the_others(
    v: PacerView,
    e: QueuedData,
    dest: Endpoint,
    rtt: Option<u32>,
    qd: Option<u32>,
)
    requires
        told_apart(v),
    ensures
        ({
            let w = pacing::enqueued(v, e, dest, rtt, qd);
            let small = small_for(v, dest);
            let bulk = bulk_for(v, dest);
            let room = if v.cfg.max_data_queue_packets < 1 {
                1
            } else {
                v.cfg.max_data_queue_packets as int
            };
            let full = small.len() + bulk.len() >= room;
            let kept_bulk = if full && bulk.len() > 0 {
                bulk.subrange(1, bulk.len() as int)
            } else {
                bulk
            };
            let kept_small = if full && bulk.len() == 0 && small.len() > 0 {
                small.subrange(1, small.len() as int)
            } else {
                small
            };
            let goes_small = v.cfg.drr_small_packet_priority && e.pkt@.len()
                < v.cfg.drr_small_packet_threshold_bytes;
            &&& told_apart(w)
            &&& small_for(w, dest) == if goes_small {
                kept_small + seq![e]
            } else {
                kept_small
            }
            &&& bulk_for(w, dest) == if goes_small {
                kept_bulk
            } else {
                kept_bulk + seq![e]
            }
            &&& forall|d: Endpoint|
                d != dest ==> #[trigger] small_for(w, d) == small_for(v, d) && bulk_for(w, d)
                    == bulk_for(v, d)
            &&& w.control == v.control
            &&& w.rtx == v.rtx
            &&& !full ==> w.n == v.n
            &&& full && v.n.dropped_data < u64::MAX ==> w.n.dropped_data == v.n.dropped_data + 1
        }),
{
    let s = pacing::with_lane(v.lanes, dest);
    let i = pacing::lane_ix(s, dest);
    lane_is_there(v, dest);
    let l = pacing::hinted(s[i].1, rtt, qd);
    let pushed = lane::lane_pushed(l, e, pacing::lane_cap(v.cfg), pacing::lane_cfg(v.cfg));
    let w = pacing::enqueued(v, e, dest, rtt, qd);
    lane_set_for(v, dest, pushed, w);
    let small = small_for(v, dest);
    let bulk = bulk_for(v, dest);
    assert(small.skip(1) =~= small.subrange(1, small.len() as int));
    assert(bulk.skip(1) =~= bulk.subrange(1, bulk.len() as int));
    assert(small.push(e) =~= small + seq![e]);
    assert(bulk.push(e) =~= bulk + seq![e]);
    assert(small.skip(1).push(e) =~= small.skip(1) + seq![e]);
    assert(bulk.skip(1).push(e) =~= bulk.skip(1) + seq![e]);
}

/// A data packet that was put back is the first of its lane, and no other packet is
/// touched.
pub proof fn put_back_data_is_first(v: PacerView, e: QueuedData, dest: Endpoint)
    requires
        told_apart(v),
    ensures
        ({
            let w = pacing::requeued(
                v,
                NextPacket::Data { pkt: e.pkt, dest, enqueued_at: e.enqueued_at },
            );
            let goes_small = v.cfg.drr_small_packet_priority && e.pkt@.len()
                < v.cfg.drr_small_packet_threshold_bytes;
            &&& told_apart(w)
            &&& small_for(w, dest) == if goes_small {
                seq![e] + small_for(v, dest)
            } else {
                small_for(v, dest)
            }
            &&& bulk_for(w, dest) == if goes_small {
                bulk_for(v, dest)
            } else {
                seq![e] + bulk_for(v, dest)
            }
            &&& forall|d: Endpoint|
                d != dest ==> #[trigger] small_for(w, d) == small_for(v, d) && bulk_for(w, d)
                    == bulk_for(v, d)
            &&& w.control == v.control
            &&& w.rtx == v.rtx
        }),
{
    let s = pacing::with_lane(v.lanes, dest);
    let i = pacing::lane_ix(s, dest);
    lane_is_there(v, dest);
    let l = lane::prepended(s[i].1, e, pacing::lane_cfg(v.cfg));
    assert(e == QueuedData { pkt: e.pkt, enqueued_at: e.enqueued_at });
    let w = pacing::requeued(
        v,
        NextPacket::Data { pkt: e.pkt, dest, enqueued_at: e.enqueued_at },
    );
    lane_set_for(v, dest, l, w);
}

/// The packets of a batch that go to the lane of small packets, or to the other.
pub open spec fn batch_part(
    pkts: Seq<Vec<u8>>,
    now: u64,
    cfg: lane::LaneConfig,
    small: bool,
) -> Seq<QueuedData> {
    pkts.filter(
        |p: Vec<u8>| (cfg.priority_on && p@.len() < cfg.threshold) == small,
    ).map_values(|p: Vec<u8>| QueuedData { pkt: p, enqueued_at: now })
}

proof fn batch_is_split(
    l: LaneView,
    pkts: Seq<Vec<u8>>,
    now: u64,
    cfg: lane::LaneConfig,
    n: nat,
)
    requires
        n <= pkts.len(),
    ensures
        pacing::batch_appended(l, pkts, now, cfg, n).small == l.small + batch_part(
            pkts.take(n as int),
            now,
            cfg,
            true,
        ),
        pacing::batch_appended(l, pkts, now, cfg, n).bulk == l.bulk + batch_part(
            pkts.take(n as int),
            now,
            cfg,
            false,
        ),
    decreases n,
{
    reveal(Seq::filter);
    let f = |p: Vec<u8>| QueuedData { pkt: p, enqueued_at: now };
    let ps = |p: Vec<u8>| (cfg.priority_on && p@.len() < cfg.threshold) == true;
    let pb = |p: Vec<u8>| (cfg.priority_on && p@.len() < cfg.threshold) == false;
    let t = pkts.take(n as int);
    if n == 0 {
        assert(t =~= Seq::<Vec<u8>>::empty());
        assert(l.small + batch_part(t, now, cfg, true) =~= l.small);
        assert(l.bulk + batch_part(t, now, cfg, false) =~= l.bulk);
    } else {
        batch_is_split(l, pkts, now, cfg, (n - 1) as nat);
        assert(t.drop_last() =~= pkts.take(n - 1));
        let a = t.drop_last().filter(ps);
        let b = t.drop_last().filter(pb);
        let x = t.last();
        assert(x == pkts[n - 1]);
        assert(a.push(x).map_values(f) =~= a.map_values(f).push(f(x)));
        assert(b.push(x).map_values(f) =~= b.map_values(f).push(f(x)));
        assert(l.small + a.map_values(f).push(f(x)) =~= (l.small + a.map_values(f)).push(f(x)));
        assert(l.bulk + b.map_values(f).push(f(x)) =~= (l.bulk + b.map_values(f)).push(f(x)));
    }
}

/// A batch waits behind the others, in its order, and as a whole: where it has not room, no
/// packet of it is taken and none is dropped for it.
pub proof fn batches_are_taken_whole(
    v: PacerView,
    pkts: Seq<Vec<u8>>,
    dest: Endpoint,
    rtt: Option<u32>,
    qd: Option<u32>,
    now: u64,
)
    requires
        told_apart(v),
    ensures
        ({
            let (taken, w) = pacing::batch_enqueued(v, pkts, dest, rtt, qd, now);
            let small = small_for(v, dest);
            let bulk = bulk_for(v, dest);
            let room = if v.cfg.max_data_queue_packets < 1 {
                1
            } else {
                v.cfg.max_data_queue_packets as int
            };
            &&& taken <==> pkts.len() == 0 || small.len() + bulk.len() + pkts.len() <= room
            &&& small_for(w, dest) == if taken {
                small + batch_part(pkts, now, pacing::lane_cfg(v.cfg), true)
            } else {
                small
            }
            &&& bulk_for(w, dest) == if taken {
                bulk + batch_part(pkts, now, pacing::lane_cfg(v.cfg), false)
            } else {
                bulk
            }
            &&& forall|d: Endpoint|
                d != dest ==> #[trigger] small_for(w, d) == small_for(v, d) && bulk_for(w, d)
                    == bulk_for(v, d)
            &&& w.control == v.control
            &&& w.rtx == v.rtx
            &&& w.n == v.n
        }),
{
    let s = pacing::with_lane(v.lanes, dest);
    let i = pacing::lane_ix(s, dest);
    lane_is_there(v, dest);
    let l = pacing::hinted(s[i].1, rtt, qd);
    let cfg = pacing::lane_cfg(v.cfg);
    let (taken, w) = pacing::batch_enqueued(v, pkts, dest, rtt, qd, now);
    assert(pkts.take(pkts.len() as int) =~= pkts);
    batch_is_split(l, pkts, now, cfg, pkts.len());
    if pkts.len() == 0 {
        batch_is_split(l, pkts, now, cfg, 0);
        assert(small_for(v, dest) =~= small_for(v, dest) + batch_part(pkts, now, cfg, true));
        assert(bulk_for(v, dest) =~= bulk_for(v, dest) + batch_part(pkts, now, cfg, false));
    } else if taken {
        lane_set_for(v, dest, pacing::batch_appended(l, pkts, now, cfg, pkts.len()), w);
    } else {
        lane_set_for(v, dest, l, w);
    }
}

/// A destination that is removed takes its packets with it, and no other loses one; whoever
/// had the next turn still has it.
pub proof fn removed_peers_take_their_packets(v: PacerView, dest: Endpoint)
    requires
        told_apart(v),
    ensures
        ({
            let w = pacing::peer_removed(v, dest);
            &&& small_for(w, dest).len() == 0 && bulk_for(w, dest).len() == 0
            &&& forall|d: Endpoint|
                d != dest ==> #[trigger] small_for(w, d) == small_for(v, d) && bulk_for(w, d)
                    == bulk_for(v, d)
            &&& w.control == v.control
            &&& w.rtx == v.rtx
            &&& v.cursor < v.lanes.len() && v.lanes[v.cursor as int].0 != dest ==> w.cursor
                < w.lanes.len() && w.lanes[w.cursor as int] == v.lanes[v.cursor as int]
        }),
{
    let w = pacing::peer_removed(v, dest);
    if pacing::has_lane(v.lanes, dest) {
        let i = pacing::lane_ix(v.lanes, dest);
        assert(lane_map::lane_at(v.lanes, dest, i));
        assert forall|j: int, k: int| 0 <= j < k < w.lanes.len() implies (#[trigger] w.lanes[j]).0
            != (#[trigger] w.lanes[k]).0 by {
            let a = if j < i { j } else { j + 1 };
            let b = if k < i { k } else { k + 1 };
            assert(v.lanes[a].0 != v.lanes[b].0);
        }
        assert forall|j: int| 0 <= j < w.lanes.len() implies (#[trigger] w.lanes[j]).0 != dest by {
            let a = if j < i { j } else { j + 1 };
            assert(w.lanes[j] == v.lanes[a]);
            if a < i {
                assert(v.lanes[a].0 != v.lanes[i].0);
            } else {
                assert(v.lanes[i].0 != v.lanes[a].0);
            }
        }
        assert forall|d: Endpoint| d != dest implies #[trigger] small_for(w, d) == small_for(v, d)
            && bulk_for(w, d) == bulk_for(v, d) by {
            if exists|j: int| 0 <= j < v.lanes.len() && (#[trigger] v.lanes[j]).0 == d {
                let j = choose|j: int| 0 <= j < v.lanes.len() && (#[trigger] v.lanes[j]).0 == d;
                lanes_of(v, d, j);
                let k = if j < i { j } else { j - 1 };
                assert(w.lanes[k] == v.lanes[j]);
                lanes_of(w, d, k);
            } else {
                assert forall|k: int| 0 <= k < w.lanes.len() implies (#[trigger] w.lanes[k]).0 != d by {
                    let a = if k < i { k } else { k + 1 };
                    assert(w.lanes[k] == v.lanes[a]);
                }
            }
        }
        if v.cursor < v.lanes.len() && v.lanes[v.cursor as int].0 != dest {
            assert(v.cursor != i);
            let c = if i < v.cursor { v.cursor - 1 } else { v.cursor as int };
            assert(0 <= c < w.lanes.len());
            assert(c % w.lanes.len() as int == c) by (nonlinear_arith)
                requires
                    0 <= c < w.lanes.len(),
            ;
        }
    } else {
        assert forall|j: int| 0 <= j < v.lanes.len() implies (#[trigger] v.lanes[j]).0 != dest by {
            assert(!lane_map::lane_at(v.lanes, dest, j));
        }
    }
}

/// What shedding took from one destination: of the large packets some of the first, each of
/// which had waited longer than it may; no small one.
pub open spec fn only_stale_shed(a: LaneView, b: LaneView, limit_us: int, now: u64) -> bool {
    &&& b.small == a.small
    &&& b.bulk.len() <= a.bulk.len()
    &&& b.bulk == a.bulk.subrange(a.bulk.len() - b.bulk.len(), a.bulk.len() as int)
    &&& forall|j: int|
        0 <= j < a.bulk.len() - b.bulk.len() ==> now - (#[trigger] a.bulk[j]).enqueued_at > limit_us
}

/// Shedding drops large packets only, from the front, and only such as have waited longer
/// than they may; it drops `left` packets at most, and neither control packets nor packets
/// to send again.
pub proof fn only_stale_packets_are_shed(v: PacerView, now: u64, left: nat, k: nat)
    requires
        v.lanes.len() > 0,
    ensures
        ({
            let w = pacing::shed_turns(v, now, left, k);
            &&& w.lanes.len() == v.lanes.len()
            &&& w.control == v.control
            &&& w.rtx == v.rtx
            &&& w.cfg == v.cfg
            &&& forall|i: int|
                0 <= i < v.lanes.len() ==> (#[trigger] w.lanes[i]).0 == v.lanes[i].0
                    && only_stale_shed(
                    v.lanes[i].1,
                    w.lanes[i].1,
                    1000 * v.cfg.shed.max_sojourn_ms,
                    now,
                )
            &&& pacing::data_queued(v.lanes, v.lanes.len()) <= pacing::data_queued(
                w.lanes,
                w.lanes.len(),
            ) + left
        }),
    decreases k,
{
    if k > 0 && left > 0 {
        let i = v.cursor as int % v.lanes.len() as int;
        let (dropped, m) = pacing::shed_turn(v, now);
        let limit = 1000 * v.cfg.shed.max_sojourn_ms;
        let left1 = if dropped {
            (left - 1) as nat
        } else {
            left
        };
        only_stale_packets_are_shed(m, now, left1, (k - 1) as nat);
        let w = pacing::shed_turns(v, now, left, k);
        let l = v.lanes[i].1;
        pacing::counts_after_update(
            v.lanes,
            i,
            LaneView { bulk: l.bulk.skip(1), ..l },
            v.lanes.len(),
        );
        assert forall|j: int| 0 <= j < v.lanes.len() implies (#[trigger] w.lanes[j]).0
            == v.lanes[j].0 && only_stale_shed(v.lanes[j].1, w.lanes[j].1, limit as int, now) by {
            assert(only_stale_shed(m.lanes[j].1, w.lanes[j].1, limit as int, now));
            let a = v.lanes[j].1;
            let b = m.lanes[j].1;
            let c = w.lanes[j].1;
            if dropped && j == i {
                assert(b.bulk =~= a.bulk.subrange(1, a.bulk.len() as int));
                assert(c.bulk =~= a.bulk.subrange(a.bulk.len() - c.bulk.len(), a.bulk.len() as int));
                assert forall|x: int| 0 <= x < a.bulk.len() - c.bulk.len() implies now - (
                #[trigger] a.bulk[x]).enqueued_at > limit by {
                    if x > 0 {
                        assert(a.bulk[x] == b.bulk[x - 1]);
                    }
                }
            }
        }
    } else {
        assert forall|j: int| 0 <= j < v.lanes.len() implies only_stale_shed(
            v.lanes[j].1,
            (#[trigger] v.lanes[j]).1,
            1000 * v.cfg.shed.max_sojourn_ms,
            now,
        ) by {
            let a = v.lanes[j].1;
            assert(a.bulk =~= a.bulk.subrange(0, a.bulk.len() as int));
        }
    }
}

} // verus!
