//! What holds of the pacer as a whole.

use crate::lane;
use crate::lane_map;
use crate::pacing;
use crate::pacing::{NextPacket, PacerView, PeerTerms};
use crate::pacing_tick;
use crate::pacing_tick::{Outgoing, SendOutcome, TickRun};
use vstd::prelude::*;

verus! {

/// How many packets a result stands for.
pub open spec fn one_if<A>(p: Option<A>) -> nat {
    if p is Some {
        1
    } else {
        0
    }
}

proof fn served_takes_one(v: PacerView, i: int, now: u64)
    requires
        0 <= i < v.lanes.len(),
        lane::lane_len(v.lanes[i].1) > 0,
    ensures
        pacing::total_queued(pacing::served(v, i, now).1) + 1 == pacing::total_queued(v),
        pacing::served(v, i, now).1.lanes.len() == v.lanes.len(),
{
    let l = v.lanes[i].1;
    let c = pacing::lane_cfg(v.cfg);
    let rest = lane::lane_popped(l, c, now);
    assert(lane::lane_len(rest) + 1 == lane::lane_len(l));
    pacing::counts_after_update(v.lanes, i, rest, v.lanes.len());
}

proof fn plain_turn_takes(v: PacerView, i: int, open: bool, now: u64)
    requires
        0 <= i < v.lanes.len(),
    ensures
        ({
            let (p, v1) = pacing::plain_turn(v, i, open, now);
            &&& pacing::total_queued(v1) + one_if(p) == pacing::total_queued(v)
            &&& v1.lanes.len() == v.lanes.len()
        }),
{
    if lane::lane_len(v.lanes[i].1) > 0 {
        served_takes_one(v, i, now);
    }
}

proof fn counted_turn_takes(v: PacerView, i: int, t: PeerTerms, now: u64)
    requires
        0 <= i < v.lanes.len(),
    ensures
        ({
            let (p, v1) = pacing::counted_turn(v, i, t, now);
            &&& pacing::total_queued(v1) + one_if(p) == pacing::total_queued(v)
            &&& v1.lanes.len() == v.lanes.len()
        }),
{
    let l = v.lanes[i].1;
    let front = lane::front_bytes(l, pacing::lane_cfg(v.cfg), now);
    let c = pacing::credit(l.deficit, t.quantum, front);
    let l0 = lane::LaneView { deficit: 0, ..l };
    let l1 = lane::LaneView { deficit: c as usize, ..l };
    let l2 = lane::LaneView { deficit: (c - front) as usize, ..l };
    pacing::counts_after_update(v.lanes, i, l0, v.lanes.len());
    pacing::counts_after_update(v.lanes, i, l1, v.lanes.len());
    pacing::counts_after_update(v.lanes, i, l2, v.lanes.len());
    if lane::lane_len(l) > 0 {
        let w = PacerView { lanes: pacing::lanes_set(v.lanes, i, l2), ..v };
        served_takes_one(w, i, now);
    }
}

proof fn plain_turns_take(v: PacerView, terms: Seq<PeerTerms>, now: u64, k: nat)
    requires
        v.lanes.len() > 0,
    ensures
        ({
            let (p, v1) = pacing::plain_turns(v, terms, now, k);
            pacing::total_queued(v1) + one_if(p) == pacing::total_queued(v)
        }),
    decreases k,
{
    if k > 0 {
        let i = v.cursor as int % v.lanes.len() as int;
        let w = PacerView { cursor: pacing::next_turn(v.cursor), ..v };
        plain_turn_takes(w, i, terms[i].open, now);
        plain_turns_take(
            pacing::plain_turn(w, i, terms[i].open, now).1,
            terms,
            now,
            (k - 1) as nat,
        );
    }
}

proof fn in_order_takes(v: PacerView, terms: Seq<PeerTerms>, now: u64, i: int)
    requires
        0 <= i,
    ensures
        ({
            let (p, v1) = pacing::in_order(v, terms, now, i);
            pacing::total_queued(v1) + one_if(p) == pacing::total_queued(v)
        }),
    decreases v.lanes.len() - i,
{
    if i < v.lanes.len() {
        plain_turn_takes(v, i, terms[i].open, now);
        in_order_takes(pacing::plain_turn(v, i, terms[i].open, now).1, terms, now, i + 1);
    }
}

proof fn counted_turns_take(v: PacerView, hits: u64, terms: Seq<PeerTerms>, now: u64, k: nat)
    requires
        v.lanes.len() > 0,
    ensures
        ({
            let (p, v1) = pacing::counted_turns(v, hits, terms, now, k);
            pacing::total_queued(v1) + one_if(p) == pacing::total_queued(v)
        }),
    decreases k,
{
    if k > 0 {
        let i = v.cursor as int % v.lanes.len() as int;
        let h = if pacing::turn_is_scaled(v, i, terms[i]) {
            crate::apd::bumped(hits)
        } else {
            hits
        };
        let w = PacerView { cursor: pacing::next_turn(v.cursor), ..v };
        counted_turn_takes(w, i, terms[i], now);
        counted_turns_take(
            pacing::counted_turn(w, i, terms[i], now).1,
            h,
            terms,
            now,
            (k - 1) as nat,
        );
    }
}

/// Taking the next packet takes one packet out of the queues, or none; no packet
/// is lost or doubled.
pub proof fn pop_takes_one(v: PacerView, terms: Seq<PeerTerms>, freeze: bool, now: u64)
    ensures
        ({
            let (p, v1) = pacing::popped(v, terms, freeze, now);
            pacing::total_queued(v1) + one_if(p) == pacing::total_queued(v)
        }),
{
    if v.rtx.len() == 0 {
        let (p, v1) = pacing::interleaved(v, now);
        if p is None {
            let n = v1.lanes.len();
            if n > 0 {
                plain_turns_take(v1, terms, now, n);
                counted_turns_take(v1, 0, terms, now, 2 * n);
            }
            in_order_takes(v1, terms, now, 0);
        }
    }
}

/// A packet that is put back is one more in the queues.
pub proof fn requeue_adds_one(v: PacerView, p: NextPacket)
    ensures
        pacing::total_queued(pacing::requeued(v, p)) == pacing::total_queued(v) + 1,
{
    if let NextPacket::Data { pkt, dest, enqueued_at } = p {
        let s = pacing::with_lane(v.lanes, dest);
        if !pacing::has_lane(v.lanes, dest) {
            assert(lane_map::lane_at(s, dest, v.lanes.len() as int));
            pacing::counts_same(v.lanes, s, v.lanes.len());
        }
        let i = pacing::lane_ix(s, dest);
        assert(lane_map::lane_at(s, dest, i));
        let e = lane::QueuedData { pkt, enqueued_at };
        let l = lane::prepended(s[i].1, e, pacing::lane_cfg(v.cfg));
        pacing::counts_after_update(s, i, l, s.len());
    }
}

/// A packet that the socket does not take stays in the queues: trying to send
/// changes their number by the packets that went out, and by nothing else.
pub proof fn unsent_packets_stay(
    v: PacerView,
    run: TickRun,
    go: bool,
    terms: Seq<PeerTerms>,
    now: u64,
    outcome: SendOutcome,
)
    ensures
        ({
            let (p, v1, run1) = pacing_tick::tick_next(v, run, go, terms, now);
            match p {
                None => pacing::total_queued(v1) == pacing::total_queued(v),
                Some(out) => {
                    let v2 = pacing_tick::outcome_done(v1, run1, out, outcome).1;
                    pacing::total_queued(v2) + if outcome == SendOutcome::Sent {
                        1int
                    } else {
                        0int
                    } == pacing::total_queued(v)
                },
            }
        }),
{
    pop_takes_one(v, terms, run.freeze_drr, now);
    let (p, v1, run1) = pacing_tick::tick_next(v, run, go, terms, now);
    if let Some(Outgoing::Next(x)) = p {
        requeue_adds_one(v1, x);
        let errors = if v1.errors == u32::MAX {
            u32::MAX
        } else {
            (v1.errors + 1) as u32
        };
        requeue_adds_one(PacerView { errors, ..v1 }, x);
    }
}

/// The place of the destination whose turn comes `j` turns from now.
pub open spec fn turn_place(v: PacerView, j: int) -> int {
    (v.cursor + j) % v.lanes.len() as int
}

/// No packet waits for the destination at `i`.
pub open spec fn idle(v: PacerView, i: int) -> bool {
    lane::lane_len(v.lanes[i].1) == 0
}

/// Deficit round robin goes round: where bytes are counted, the next data packet
/// is of the first destination from the cursor on for which packets wait, if its
/// packet is no larger than its quantum and congestion control lets it send; the
/// turn then goes to the destination behind it. So whoever waits at distance `d`
/// from the cursor waits for `d` other packets at most.
pub proof fn next_in_turn_is_served(
    v: PacerView,
    hits: u64,
    terms: Seq<PeerTerms>,
    now: u64,
    j: int,
    k: nat,
)
    requires
        v.lanes.len() > 0,
        terms.len() == v.lanes.len(),
        0 <= j < v.lanes.len(),
        j < k,
        v.cursor + j < usize::MAX,
        forall|x: int| 0 <= x < j ==> idle(v, #[trigger] turn_place(v, x)),
        !idle(v, turn_place(v, j)),
        terms[turn_place(v, j)].open,
        0 < lane::front_bytes(v.lanes[turn_place(v, j)].1, pacing::lane_cfg(v.cfg), now)
            <= terms[turn_place(v, j)].quantum,
    ensures
        ({
            let l = v.lanes[turn_place(v, j)];
            let e = lane::lane_front(l.1, pacing::lane_cfg(v.cfg), now);
            let (p, v1) = pacing::counted_turns(v, hits, terms, now, k);
            &&& p == Some(
                NextPacket::Data { pkt: e.pkt, dest: l.0, enqueued_at: e.enqueued_at },
            )
            &&& v1.cursor == v.cursor + j + 1
        }),
    decreases j,
{
    let n = v.lanes.len() as int;
    let i = v.cursor as int % n;
    assert(i == turn_place(v, 0));
    let w = PacerView { cursor: pacing::next_turn(v.cursor), ..v };
    if j == 0 {
        let l = v.lanes[i].1;
        let t = terms[i];
        let front = lane::front_bytes(l, pacing::lane_cfg(v.cfg), now);
        let c = pacing::credit(l.deficit, t.quantum, front);
        assert(front <= c);
    } else {
        assert(idle(v, turn_place(v, 0)));
        let w1 = pacing::counted_turn(w, i, terms[i], now).1;
        let h = if pacing::turn_is_scaled(v, i, terms[i]) {
            crate::apd::bumped(hits)
        } else {
            hits
        };
        assert forall|x: int| turn_place(w1, x - 1) == #[trigger] turn_place(v, x) by {}
        let target = turn_place(v, j);
        assert(target != i);
        assert(w1.lanes[target] == v.lanes[target]);
        assert forall|x: int| 0 <= x < j - 1 implies idle(w1, #[trigger] turn_place(w1, x)) by {
            assert(turn_place(w1, x) == turn_place(v, x + 1));
            assert(idle(v, turn_place(v, x + 1)));
            let y = turn_place(v, x + 1);
            if y != i {
                assert(w1.lanes[y] == v.lanes[y]);
            }
        }
        assert(turn_place(w1, j - 1) == target);
        next_in_turn_is_served(w1, h, terms, now, j - 1, (k - 1) as nat);
    }
}

} // verus!
