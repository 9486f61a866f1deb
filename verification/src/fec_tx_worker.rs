//! The worker that keeps an encoder for each destination.
//!
//! Packets and commands come in; what the encoders give out goes to the pacer in
//! one batch, or back to the engine where the pacer does not take it.

use crate::addr::Endpoint;
use crate::chance::random_u32;
use crate::fec;
use crate::fec::{
    FecEncoder, FecOutput, FEC_FLUSH_TIMEOUT, FEC_FLUSH_TIMEOUT_AGGRESSIVE,
};
use crate::fec_codec;
use crate::fec_ratio::FEC_SHARD_PAYLOAD_SIZE;
use crate::table;
use crate::table::{Key, Table};
use vstd::prelude::*;

verus! {

/// How many packets wait for the worker at most.
pub const FEC_TX_DATA_CHANNEL_CAP: usize = 1024;

/// How many commands wait for the worker at most.
pub const FEC_TX_CONTROL_CHANNEL_CAP: usize = 32;

/// The size of shards, and how long groups wait, in microseconds.
#[derive(Clone, Copy, Debug, PartialEq, Eq, Structural)]
pub struct FecTxTuning {
    pub shard: usize,
    pub flush_std: u64,
    pub flush_agg: u64,
}

impl Default for FecTxTuning {
    fn default() -> (out: Self)
        ensures
            out == (FecTxTuning {
                shard: FEC_SHARD_PAYLOAD_SIZE,
                flush_std: FEC_FLUSH_TIMEOUT,
                flush_agg: FEC_FLUSH_TIMEOUT_AGGRESSIVE,
            }),
    {
        FecTxTuning {
            shard: FEC_SHARD_PAYLOAD_SIZE,
            flush_std: FEC_FLUSH_TIMEOUT,
            flush_agg: FEC_FLUSH_TIMEOUT_AGGRESSIVE,
        }
    }
}

/// A command to the worker.
#[derive(Clone, Copy)]
pub enum FecTxControl {
    FlushAll,
    /// Closes all groups, then changes the tuning.
    Retune(FecTxTuning),
    SetEncodeEnabled { enabled: bool },
    RemovePeer { dest: Endpoint },
    ResetSession,
    Stop,
}

/// Why packets go back to the engine.
#[derive(Clone, Copy, Debug, PartialEq, Eq, Structural)]
pub enum NormalOfferKind {
    Passthrough,
    BatchFallback,
    DrainPassthrough,
}

/// What goes out for a destination.
pub enum FecTxEvent {
    /// Frames for the pacer.
    Batch { dest: Endpoint, pkts: Vec<Vec<u8>> },
    /// Packets for the engine.
    EnqueueNormal { dest: Endpoint, pkts: Vec<Vec<u8>>, kind: NormalOfferKind },
}

/// How long the queues of the pacer are.
pub struct QueueLens {
    pub lens: Table<Endpoint, usize>,
    pub cap: usize,
}

/// The queue's length and bound for a destination.
pub open spec fn budget_of(q: QueueLens, dest: Endpoint) -> Option<(usize, usize)> {
    Some(
        (
            if q.lens@.dom().contains(dest) {
                q.lens@[dest]
            } else {
                0
            },
            if q.cap == 0 {
                1
            } else {
                q.cap
            },
        ),
    )
}

impl QueueLens {
    fn budget(&self, dest: Endpoint) -> (out: Option<(usize, usize)>)
        requires
            self.lens.wf(),
        ensures
            out == budget_of(*self, dest),
    {
        let len: usize = match self.lens.get(&dest) {
            Some(n) => *n,
            None => 0,
        };
        let cap: usize = if self.cap == 0 {
            1
        } else {
            self.cap
        };
        Some((len, cap))
    }
}

/// What the hints of the pacer say, as the bits of floating point numbers.
pub type Hints = (Option<u32>, Option<u32>);

/// The worker's state.
pub struct WorkerState {
    pub frame_type: u8,
    pub encoders: Table<Endpoint, FecEncoder>,
    pub hints: Table<Endpoint, Hints>,
    pub tuning: FecTxTuning,
    pub encode_enabled: bool,
}

/// What the encoders gave out, each for its destination.
pub open spec fn outputs(v: Seq<(Endpoint, FecOutput)>) -> Seq<(Endpoint, fec::OutputView)> {
    Seq::new(v.len(), |i: int| (v[i].0, v[i].1@))
}

/// What all encoders give out when their groups are closed.
pub open spec fn all_flushed(s: Seq<(Endpoint, FecEncoder)>, q: QueueLens) -> Seq<
    (Endpoint, fec::OutputView),
> {
    Seq::new(s.len(), |i: int| (s[i].0, fec::flushed(s[i].1@, budget_of(q, s[i].0)).0))
}

/// The packets of the encoder have waited long enough.
pub open spec fn due(e: fec::EncoderView, now: u64) -> bool {
    e.first_at matches Some(t) && crate::engine_state::elapsed(now, t) >= e.timeout
}

/// What becomes of an encoder whose packets have waited long enough. Where the
/// link is drained, they go out as they are.
pub open spec fn due_flushed(
    e: fec::EncoderView,
    drain: bool,
    budget: Option<(usize, usize)>,
) -> (fec::OutputView, fec::EncoderView) {
    if !drain || e.pending.len() == 0 {
        fec::flushed(e, budget)
    } else {
        fec::uncoded(e)
    }
}

/// What the first `n` encoders give out whose packets have waited long enough.
pub open spec fn due_outputs(
    s: Seq<(Endpoint, FecEncoder)>,
    drain: bool,
    q: QueueLens,
    now: u64,
    n: nat,
) -> Seq<(Endpoint, fec::OutputView)>
    decreases n,
{
    if n == 0 {
        Seq::empty()
    } else {
        let rest = due_outputs(s, drain, q, now, (n - 1) as nat);
        let (dest, e) = s[n - 1];
        if due(e@, now) {
            rest.push((dest, due_flushed(e@, drain, budget_of(q, dest)).0))
        } else {
            rest
        }
    }
}

/// An encoder with a new tuning.
pub open spec fn tuned(e: fec::EncoderView, t: FecTxTuning) -> fec::EncoderView {
    fec::EncoderView {
        shard: t.shard,
        standard: t.flush_std,
        aggressive: t.flush_agg,
        pool: if e.shard == t.shard {
            e.pool
        } else {
            0
        },
        ..e
    }
}

/// What an encoder does with a packet: it takes on the tuning, then the ratio,
/// then the packet, and gives something out each time.
pub open spec fn push_steps(
    e: fec::EncoderView,
    t: FecTxTuning,
    data: u8,
    parity: u8,
    pkt: Seq<u8>,
    budget: Option<(usize, usize)>,
    now: u64,
) -> (Seq<fec::OutputView>, fec::EncoderView) {
    let (o1, e1) = if e.shard != t.shard {
        fec::flushed(e, budget)
    } else {
        (fec::OutputView::Buffered, e)
    };
    let (o2, e2) = fec::reratioed(tuned(e1, t), data, parity, budget);
    let (o3, e3) = fec::pushed(e2, pkt, budget, now);
    (seq![o1, o2, o3], e3)
}

/// A worker's encoders, seen as values.
pub open spec fn encoder_views(m: Map<Endpoint, FecEncoder>) -> Map<Endpoint, fec::EncoderView> {
    m.map_values(|e: FecEncoder| e@)
}

/// The encoder for a destination; a new one has the worker's tuning.
pub open spec fn encoder_for(
    w: WorkerState,
    dest: Endpoint,
    salt: u32,
    data: u8,
    parity: u8,
) -> fec::EncoderView {
    if w.encoders@.dom().contains(dest) {
        w.encoders@[dest]@
    } else {
        fec::fresh(
            w.frame_type,
            if salt == 0 {
                0x9e37_79b9
            } else {
                salt
            },
            data,
            parity,
            w.tuning.shard,
            w.tuning.flush_std,
            w.tuning.flush_agg,
        )
    }
}

/// A request to close groups, given the request that is there: the stronger one
/// stays.
pub open spec fn flush_request(cur: u8, drain: bool) -> u8 {
    let v = if drain {
        2u8
    } else {
        1u8
    };
    if cur < v {
        v
    } else {
        cur
    }
}

/// Asks for groups to be closed: 1 closes those that have waited long enough, 2
/// lets their packets go out as they are.
pub fn request_flush_due(cur: u8, drain: bool) -> (out: u8)
    ensures
        out == flush_request(cur, drain),
{
    let v: u8 = if drain {
        2
    } else {
        1
    };
    if cur < v {
        v
    } else {
        cur
    }
}

/// Where the output of an encoder goes.
pub fn dispatch_output(dest: Endpoint, out: FecOutput, drain: bool) -> (ev: Option<FecTxEvent>)
    ensures
        match out {
            FecOutput::Buffered => ev is None,
            FecOutput::Encoded(pkts) => ev == Some(FecTxEvent::Batch { dest, pkts }),
            FecOutput::Passthrough(pkts) => ev == Some(
                FecTxEvent::EnqueueNormal {
                    dest,
                    pkts,
                    kind: if drain {
                        NormalOfferKind::DrainPassthrough
                    } else {
                        NormalOfferKind::Passthrough
                    },
                },
            ),
        },
{
    match out {
        FecOutput::Buffered => None,
        FecOutput::Encoded(pkts) => Some(FecTxEvent::Batch { dest, pkts }),
        FecOutput::Passthrough(pkts) => {
            let kind: NormalOfferKind = if drain {
                NormalOfferKind::DrainPassthrough
            } else {
                NormalOfferKind::Passthrough
            };
            Some(FecTxEvent::EnqueueNormal { dest, pkts, kind })
        },
    }
}

/// What becomes of a batch, once the pacer has answered: one that it did not
/// take goes to the engine.
pub fn batch_answered(dest: Endpoint, pkts: Vec<Vec<u8>>, taken: bool) -> (ev: Option<FecTxEvent>)
    ensures
        ev == if taken {
            None
        } else {
            Some(
                FecTxEvent::EnqueueNormal { dest, pkts, kind: NormalOfferKind::BatchFallback },
            )
        },
{
    if taken {
        None
    } else {
        Some(FecTxEvent::EnqueueNormal { dest, pkts, kind: NormalOfferKind::BatchFallback })
    }
}

impl WorkerState {
    pub open spec fn wf(&self) -> bool {
        &&& self.encoders.wf()
        &&& self.hints.wf()
        &&& forall|d: Endpoint| #[trigger]
            self.encoders@.dom().contains(d) ==> self.encoders@[d].wf()
    }

    pub fn new(frame_type: u8, tuning: FecTxTuning) -> (out: Self)
        ensures
            out.wf(),
            out.frame_type == frame_type,
            out.tuning == tuning,
            out.encode_enabled,
            out.encoders@ == Map::<Endpoint, FecEncoder>::empty(),
            out.hints@ == Map::<Endpoint, Hints>::empty(),
    {
        WorkerState {
            frame_type,
            encoders: Table::new(),
            hints: Table::new(),
            tuning,
            encode_enabled: true,
        }
    }

    /// Closes all groups. No encoder stays.
    pub fn flush_all(&mut self, q: &QueueLens) -> (out: Vec<(Endpoint, FecOutput)>)
        requires
            old(self).wf(),
            q.lens.wf(),
        ensures
            final(self).wf(),
            outputs(out@) == all_flushed(old(self).encoders.entries@, *q),
            final(self).encoders@ == Map::<Endpoint, FecEncoder>::empty(),
            *final(self) == (WorkerState { encoders: final(self).encoders, ..*old(self) }),
    {
        let ghost s = self.encoders.entries@;
        proof {
            entries_wf(self.encoders);
        }
        let mut rest: Vec<(Endpoint, FecEncoder)> = Vec::new();
        rest.append(&mut self.encoders.entries);
        let mut out: Vec<(Endpoint, FecOutput)> = Vec::new();
        let ghost mut n: int = 0;
        proof {
            assert(rest@ =~= s.skip(0));
        }
        while rest.len() > 0
            invariant
                0 <= n <= s.len(),
                rest@ == s.skip(n),
                q.lens.wf(),
                forall|i: int| 0 <= i < s.len() ==> (#[trigger] s[i]).1.wf(),
                out@.len() == n,
                forall|i: int|
                    0 <= i < n ==> (#[trigger] out@[i]).0 == s[i].0 && out@[i].1@ == fec::flushed(
                        s[i].1@,
                        budget_of(*q, s[i].0),
                    ).0,
            decreases rest@.len(),
        {
            let (dest, mut enc) = rest.remove(0);
            proof {
                assert((dest, enc) == s[n]);
                assert(rest@ =~= s.skip(n + 1));
                n = n + 1;
            }
            let o = enc.flush(q.budget(dest));
            out.push((dest, o));
        }
        self.encoders = Table::new();
        proof {
            assert(outputs(out@) =~= all_flushed(s, *q));
        }
        out
    }

    /// Closes the groups that have waited long enough.
    pub fn flush_due(&mut self, drain: bool, q: &QueueLens, now: u64) -> (out: Vec<
        (Endpoint, FecOutput),
    >)
        requires
            old(self).wf(),
            q.lens.wf(),
        ensures
            final(self).wf(),
            outputs(out@) == due_outputs(
                old(self).encoders.entries@,
                drain,
                *q,
                now,
                old(self).encoders.entries@.len(),
            ),
            *final(self) == (WorkerState { encoders: final(self).encoders, ..*old(self) }),
            final(self).encoders@.dom() == old(self).encoders@.dom(),
            forall|d: Endpoint| #[trigger]
                final(self).encoders@.dom().contains(d) ==> final(self).encoders@[d]@ == if due(
                    old(self).encoders@[d]@,
                    now,
                ) {
                    due_flushed(old(self).encoders@[d]@, drain, budget_of(*q, d)).1
                } else {
                    old(self).encoders@[d]@
                },
    {
        let ghost s = self.encoders.entries@;
        let ghost t0 = self.encoders;
        proof {
            entries_wf(self.encoders);
        }
        let mut rest: Vec<(Endpoint, FecEncoder)> = Vec::new();
        rest.append(&mut self.encoders.entries);
        let mut kept: Vec<(Endpoint, FecEncoder)> = Vec::new();
        let mut out: Vec<(Endpoint, FecOutput)> = Vec::new();
        let ghost mut n: int = 0;
        proof {
            assert(rest@ =~= s.skip(0));
            assert(outputs(out@) =~= Seq::empty());
        }
        while rest.len() > 0
            invariant
                0 <= n <= s.len(),
                rest@ == s.skip(n),
                q.lens.wf(),
                forall|i: int| 0 <= i < s.len() ==> (#[trigger] s[i]).1.wf(),
                kept@.len() == n,
                forall|i: int|
                    0 <= i < n ==> (#[trigger] kept@[i]).0 == s[i].0 && kept@[i].1.wf()
                        && kept@[i].1@ == if due(s[i].1@, now) {
                        due_flushed(s[i].1@, drain, budget_of(*q, s[i].0)).1
                    } else {
                        s[i].1@
                    },
                outputs(out@) == due_outputs(s, drain, *q, now, n as nat),
            decreases rest@.len(),
        {
            let (dest, mut enc) = rest.remove(0);
            let ghost e0 = enc@;
            proof {
                assert((dest, enc) == s[n]);
                assert(rest@ =~= s.skip(n + 1));
                n = n + 1;
            }
            if enc.needs_flush(now) {
                let o = if drain {
                    enc.flush_passthrough()
                } else {
                    enc.flush(q.budget(dest))
                };
                let ghost before = outputs(out@);
                out.push((dest, o));
                proof {
                    assert(outputs(out@) =~= before.push((dest, o@)));
                }
            }
            kept.push((dest, enc));
        }
        self.encoders = Table { entries: kept };
        proof {
            same_keys(t0, self.encoders);
            let u = self.encoders.entries@;
            assert forall|d: Endpoint| #[trigger] self.encoders@.dom().contains(d) implies
                self.encoders@[d].wf() && self.encoders@[d]@ == if due(t0@[d]@, now) {
                due_flushed(t0@[d]@, drain, budget_of(*q, d)).1
            } else {
                t0@[d]@
            } by {
                let i = choose|i: int| table::key_at(u, d, i);
                table::map_of_at(u, i);
                table::map_of_at(s, i);
                assert(kept@[i].0 == s[i].0);
            }
        }
        out
    }

    /// Takes a packet for a destination. A new encoder tells its groups from
    /// others by a number by chance.
    pub fn handle_push(
        &mut self,
        dest: Endpoint,
        pkt: Vec<u8>,
        data: u8,
        parity: u8,
        queue_budget: Option<(usize, usize)>,
        hints: Hints,
        now: u64,
    ) -> (out: Vec<FecOutput>)
        requires
            old(self).wf(),
        ensures
            final(self).wf(),
            exists|salt: u32| #[trigger]
                push_done(
                    *old(self),
                    dest,
                    salt,
                    pkt@,
                    data,
                    parity,
                    queue_budget,
                    hints,
                    now,
                    out_views(out@),
                    *final(self),
                ),
    {
        let salt: u32 = random_u32();
        self.push_with_salt(dest, salt, pkt, data, parity, queue_budget, hints, now)
    }

    /// Takes a packet for a destination.
    pub fn push_with_salt(
        &mut self,
        dest: Endpoint,
        salt: u32,
        pkt: Vec<u8>,
        data: u8,
        parity: u8,
        queue_budget: Option<(usize, usize)>,
        hints: Hints,
        now: u64,
    ) -> (out: Vec<FecOutput>)
        requires
            old(self).wf(),
        ensures
            final(self).wf(),
            push_done(
                *old(self),
                dest,
                salt,
                pkt@,
                data,
                parity,
                queue_budget,
                hints,
                now,
                out_views(out@),
                *final(self),
            ),
    {
        let ghost w0 = *self;
        let ghost bytes = pkt@;
        self.hints.insert(dest, hints);
        let mut out: Vec<FecOutput> = Vec::new();
        if !self.encode_enabled {
            let mut v: Vec<Vec<u8>> = Vec::new();
            v.push(pkt);
            proof {
                assert(fec_codec::bytes_of(v@) =~= seq![bytes]);
            }
            out.push(FecOutput::Passthrough(v));
            proof {
                assert(out_views(out@) =~= seq![fec::OutputView::Passthrough(seq![bytes])]);
            }
            return out;
        }
        let t: FecTxTuning = self.tuning;
        let mut enc = match self.encoders.remove(&dest) {
            Some(e) => e,
            None => FecEncoder::with_salt(
                self.frame_type,
                salt,
                data,
                parity,
                t.shard,
                t.flush_std,
                t.flush_agg,
            ),
        };
        proof {
            assert(enc@ == encoder_for(w0, dest, salt, data, parity));
        }
        let o1 = if enc.shard_payload_size() != t.shard {
            enc.flush(queue_budget)
        } else {
            FecOutput::Buffered
        };
        enc.apply_tuning(t.shard, t.flush_std, t.flush_agg);
        let o2 = enc.update_ratio_with_flush(data, parity, queue_budget);
        let o3 = enc.push_output(pkt, queue_budget, now);
        let ghost e3 = enc@;
        self.encoders.insert(dest, enc);
        let ghost views = seq![o1@, o2@, o3@];
        out.push(o1);
        out.push(o2);
        out.push(o3);
        proof {
            assert(out_views(out@) =~= views);
            assert(encoder_views(self.encoders@) =~= encoder_views(w0.encoders@).insert(dest, e3));
        }
        out
    }

    /// Carries a command out; tells whether the worker ends.
    pub fn handle_control(&mut self, cmd: FecTxControl, q: &QueueLens) -> (out: (
        Vec<(Endpoint, FecOutput)>,
        bool,
    ))
        requires
            old(self).wf(),
            q.lens.wf(),
        ensures
            final(self).wf(),
            control_done(*old(self), cmd, *q, outputs(out.0@), out.1, *final(self)),
    {
        let none: Vec<(Endpoint, FecOutput)> = Vec::new();
        proof {
            assert(outputs(none@) =~= Seq::empty());
        }
        match cmd {
            FecTxControl::FlushAll => (self.flush_all(q), false),
            FecTxControl::Retune(t) => {
                let out = self.flush_all(q);
                self.tuning = t;
                (out, false)
            },
            FecTxControl::SetEncodeEnabled { enabled } => {
                self.encode_enabled = enabled;
                (none, false)
            },
            FecTxControl::RemovePeer { dest } => {
                let _ = self.encoders.remove(&dest);
                let _ = self.hints.remove(&dest);
                (none, false)
            },
            FecTxControl::ResetSession => {
                let out = self.flush_all(q);
                self.hints.clear();
                self.encode_enabled = true;
                (out, false)
            },
            FecTxControl::Stop => (self.flush_all(q), true),
        }
    }

    /// The hints for a destination.
    pub fn hints_for(&self, dest: Endpoint) -> (out: Hints)
        requires
            self.wf(),
        ensures
            out == if self.hints@.dom().contains(dest) {
                self.hints@[dest]
            } else {
                (None, None)
            },
    {
        match self.hints.get(&dest) {
            Some(h) => *h,
            None => (None, None),
        }
    }
}

/// What an encoder gave out, step by step.
pub open spec fn out_views(v: Seq<FecOutput>) -> Seq<fec::OutputView> {
    Seq::new(v.len(), |i: int| v[i]@)
}

/// The worker has taken a packet.
pub open spec fn push_done(
    w: WorkerState,
    dest: Endpoint,
    salt: u32,
    pkt: Seq<u8>,
    data: u8,
    parity: u8,
    budget: Option<(usize, usize)>,
    hints: Hints,
    now: u64,
    out: Seq<fec::OutputView>,
    w1: WorkerState,
) -> bool {
    let e = encoder_for(w, dest, salt, data, parity);
    let (steps, e1) = push_steps(e, w.tuning, data, parity, pkt, budget, now);
    &&& w1 == (WorkerState { hints: w1.hints, encoders: w1.encoders, ..w })
    &&& w1.hints@ == w.hints@.insert(dest, hints)
    &&& if !w.encode_enabled {
        &&& w1.encoders == w.encoders
        &&& out == seq![fec::OutputView::Passthrough(seq![pkt])]
    } else {
        &&& encoder_views(w1.encoders@) == encoder_views(w.encoders@).insert(dest, e1)
        &&& out == steps
    }
}

/// The worker has carried a command out.
pub open spec fn control_done(
    w: WorkerState,
    cmd: FecTxControl,
    q: QueueLens,
    out: Seq<(Endpoint, fec::OutputView)>,
    stop: bool,
    w1: WorkerState,
) -> bool {
    let closed = out == all_flushed(w.encoders.entries@, q) && w1.encoders@ == Map::<
        Endpoint,
        FecEncoder,
    >::empty();
    match cmd {
        FecTxControl::FlushAll => {
            &&& !stop
            &&& closed
            &&& w1 == (WorkerState { encoders: w1.encoders, ..w })
        },
        FecTxControl::Retune(t) => {
            &&& !stop
            &&& closed
            &&& w1 == (WorkerState { encoders: w1.encoders, tuning: t, ..w })
        },
        FecTxControl::SetEncodeEnabled { enabled } => {
            &&& !stop
            &&& out.len() == 0
            &&& w1 == (WorkerState { encode_enabled: enabled, ..w })
        },
        FecTxControl::RemovePeer { dest } => {
            &&& !stop
            &&& out.len() == 0
            &&& w1.encoders@ == w.encoders@.remove(dest)
            &&& w1.hints@ == w.hints@.remove(dest)
            &&& w1 == (WorkerState { encoders: w1.encoders, hints: w1.hints, ..w })
        },
        FecTxControl::ResetSession => {
            &&& !stop
            &&& closed
            &&& w1.hints@ == Map::<Endpoint, Hints>::empty()
            &&& w1 == (WorkerState {
                encoders: w1.encoders,
                hints: w1.hints,
                encode_enabled: true,
                ..w
            })
        },
        FecTxControl::Stop => {
            &&& stop
            &&& closed
            &&& w1 == (WorkerState { encoders: w1.encoders, ..w })
        },
    }
}

/// What holds of each value holds of each entry.
proof fn entries_wf(t: Table<Endpoint, FecEncoder>)
    requires
        t.wf(),
        forall|d: Endpoint| #[trigger] t@.dom().contains(d) ==> t@[d].wf(),
    ensures
        forall|i: int| 0 <= i < t.entries@.len() ==> (#[trigger] t.entries@[i]).1.wf(),
{
    assert forall|i: int| 0 <= i < t.entries@.len() implies (#[trigger] t.entries@[i]).1.wf() by {
        table::map_of_at(t.entries@, i);
        assert(t@.dom().contains(t.entries@[i].0));
    }
}

/// Tables with the same keys in the same places have the same keys.
proof fn same_keys(a: Table<Endpoint, FecEncoder>, b: Table<Endpoint, FecEncoder>)
    requires
        a.wf(),
        a.entries@.len() == b.entries@.len(),
        forall|i: int|
            0 <= i < b.entries@.len() ==> (#[trigger] b.entries@[i]).0 == a.entries@[i].0,
    ensures
        b.wf(),
        a@.dom() == b@.dom(),
{
    let s = a.entries@;
    let u = b.entries@;
    assert forall|i: int, j: int| 0 <= i < j < u.len() implies (#[trigger] u[i]).0.id() != (
    #[trigger] u[j]).0.id() by {
        assert(s[i].0.id() != s[j].0.id());
    }
    assert forall|d: Endpoint| a@.dom().contains(d) <==> b@.dom().contains(d) by {
        if table::has_key(s, d) {
            let i = choose|i: int| table::key_at(s, d, i);
            assert(u[i].0 == s[i].0);
            assert(table::key_at(u, d, i));
        }
        if table::has_key(u, d) {
            let i = choose|i: int| table::key_at(u, d, i);
            assert(u[i].0 == s[i].0);
            assert(table::key_at(s, d, i));
        }
    }
    assert(a@.dom() =~= b@.dom());
}

/// After a packet the encoder of its destination has the worker's tuning and the
/// packet's ratio, so no packet waits for shards of another size.
pub proof fn encoder_takes_on_tuning(
    e: fec::EncoderView,
    t: FecTxTuning,
    data: u8,
    parity: u8,
    pkt: Seq<u8>,
    budget: Option<(usize, usize)>,
    now: u64,
)
    ensures
        ({
            let e1 = push_steps(e, t, data, parity, pkt, budget, now).1;
            e1.shard == t.shard && e1.data == data && e1.parity == parity
        }),
{
}

} // verus!
