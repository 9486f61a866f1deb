//! What holds of the encoder over many packets.

use crate::fec;
use crate::fec::{EncoderView, FlushPolicy, OutputView};
use crate::fec_codec;
use crate::fec_codec::FrameHead;
use crate::fec_ratio;
use crate::fec_ratio::{FEC_MAX_TOTAL_SHARDS, FEC_SHARD_LEN_PREFIX};
use vstd::prelude::*;

verus! {

/// The number of the group `n` groups after the one with the number `s`.
pub open spec fn seq_after(s: u32, n: nat) -> u32
    decreases n,
{
    if n == 0 {
        s
    } else {
        fec::next_seq(seq_after(s, (n - 1) as nat))
    }
}

/// The numbers go through all that a machine word holds but zero.
proof fn seq_after_counts(s: u32, n: nat)
    requires
        s >= 1,
    ensures
        seq_after(s, n) == (s - 1 + n) % 0xffff_ffff + 1,
        seq_after(s, n) >= 1,
    decreases n,
{
    if n > 0 {
        seq_after_counts(s, (n - 1) as nat);
    }
}

proof fn seq_after_adds(s: u32, m: nat, n: nat)
    ensures
        seq_after(seq_after(s, m), n) == seq_after(s, m + n),
    decreases n,
{
    if n > 0 {
        seq_after_adds(s, m, (n - 1) as nat);
    }
}

/// The number of a group does not come back: among as many groups in a row as there
/// are numbers but zero, no two have the same id.
pub proof fn group_ids_do_not_come_back(salt: u32, s: u32, n: nat)
    requires
        s >= 1,
        1 <= n <= 0xffff_fffe,
    ensures
        salt ^ s != salt ^ seq_after(s, n),
        seq_after(s, n) != 0,
{
    seq_after_counts(s, n);
    let t = seq_after(s, n);
    if s - 1 + n < 0xffff_ffff {
        assert((s - 1 + n) % 0xffff_ffff == s - 1 + n);
    } else {
        assert((s - 1 + n) % 0xffff_ffff == s - 1 + n - 0xffff_ffff);
    }
    assert(t != s);
    assert(t != s ==> salt ^ s != salt ^ t) by (bit_vector);
}

/// Something that is done with an encoder.
pub ghost enum EncoderStep {
    Push { pkt: Seq<u8>, budget: Option<(usize, usize)>, now: u64 },
    Flush { budget: Option<(usize, usize)> },
    Release,
    Ratio { data: u8, parity: u8, budget: Option<(usize, usize)> },
}

/// What a step gives, and the encoder after it.
pub open spec fn stepped(e: EncoderView, s: EncoderStep) -> (OutputView, EncoderView) {
    match s {
        EncoderStep::Push { pkt, budget, now } => fec::pushed(e, pkt, budget, now),
        EncoderStep::Flush { budget } => fec::flushed(e, budget),
        EncoderStep::Release => fec::released(e),
        EncoderStep::Ratio { data, parity, budget } => fec::reratioed(e, data, parity, budget),
    }
}

/// The encoder goes through the steps, one after the other, and gives `outs`.
pub open spec fn goes_through(
    es: Seq<EncoderView>,
    steps: Seq<EncoderStep>,
    outs: Seq<OutputView>,
) -> bool {
    &&& es.len() == steps.len() + 1
    &&& outs.len() == steps.len()
    &&& forall|i: int|
        0 <= i < steps.len() ==> (outs[i], es[i + 1]) == stepped(es[i], #[trigger] steps[i])
}

/// The head stands in a frame whatever comes behind it.
proof fn head_stands(frame_type: u8, h: FrameHead, shard: Seq<u8>)
    ensures
        fec_codec::head_of(fec_codec::frame(frame_type, h, shard)) == h,
        fec_codec::frame(frame_type, h, shard)[0] == frame_type,
{
    let f = fec_codec::frame(frame_type, h, shard);
    let g = h.group_id;
    assert(f[1] == (g % 256) as u8 && f[2] == (g / 256 % 256) as u8 && f[3] == (g / 65536 % 256)
        as u8 && f[4] == (g / 16777216) as u8);
    assert(g == g % 256 + 256 * (g / 256 % 256) + 65536 * (g / 65536 % 256) + 16777216 * (g
        / 16777216));
}

/// A group that goes out coded is the group before it, and uses up its number.
proof fn step_uses_numbers(e: EncoderView, s: EncoderStep) -> (m: nat)
    requires
        e.seq >= 1,
    ensures
        m <= 2,
        stepped(e, s).1.salt == e.salt,
        stepped(e, s).1.seq == seq_after(e.seq, m),
        stepped(e, s).1.seq >= 1,
        stepped(e, s).0 matches OutputView::Encoded(frames) ==> m >= 1 && forall|i: int|
            0 <= i < frames.len() ==> fec_codec::head_of(#[trigger] frames[i]).group_id == e.salt
                ^ e.seq,
{
    reveal_with_fuel(seq_after, 3);
    seq_after_counts(e.seq, 1);
    seq_after_counts(e.seq, 2);
    let (out, e1) = stepped(e, s);
    if let OutputView::Encoded(frames) = out {
        let (at, parity): (EncoderView, nat) = match s {
            EncoderStep::Push { pkt, budget, now } => {
                let e1 = fec::joined(e, pkt, now);
                if e1.pending.len() >= e.data {
                    (e1, e.parity as nat)
                } else {
                    (e1, fec::parity_share(e1.pending.len(), e.data, e.parity))
                }
            },
            _ => (e, fec::parity_share(e.pending.len(), e.data, e.parity)),
        };
        assert(frames == fec::group_frames(at, parity));
        assert forall|i: int| 0 <= i < frames.len() implies fec_codec::head_of(
            #[trigger] frames[i],
        ).group_id == e.salt ^ e.seq by {
            let n = at.pending.len();
            let all = fec_codec::whole(fec::shards_of(at.pending, at.shard as nat), parity);
            head_stands(
                at.frame_type,
                FrameHead {
                    group_id: at.salt ^ at.seq,
                    shard_idx: i as u8,
                    data_shards: n as u8,
                    parity_shards: parity as u8,
                },
                all[i],
            );
        }
    }
    if e1.seq == e.seq {
        0
    } else if e1.seq == fec::next_seq(e.seq) {
        1
    } else {
        2
    }
}

/// How far the numbers have come after the first `n` steps.
proof fn numbers_go_on(
    es: Seq<EncoderView>,
    steps: Seq<EncoderStep>,
    outs: Seq<OutputView>,
    i: int,
    j: int,
) -> (m: nat)
    requires
        goes_through(es, steps, outs),
        es[i].seq >= 1,
        0 <= i <= j <= steps.len(),
    ensures
        m <= 2 * (j - i),
        es[j].salt == es[i].salt,
        es[j].seq == seq_after(es[i].seq, m),
        es[j].seq >= 1,
        i < j && outs[i] is Encoded ==> m >= 1,
    decreases j - i,
{
    if i == j {
        0
    } else {
        let a = numbers_go_on(es, steps, outs, i, j - 1);
        assert((outs[j - 1], es[j]) == stepped(es[j - 1], steps[j - 1]));
        let b = step_uses_numbers(es[j - 1], steps[j - 1]);
        seq_after_adds(es[i].seq, a, b);
        a + b
    }
}

/// Whatever is done with an encoder, ratio changes among it, all groups that go out
/// coded within two thousand million steps have different ids, and all frames of a
/// group have the same one.
pub proof fn coded_groups_are_told_apart(
    es: Seq<EncoderView>,
    steps: Seq<EncoderStep>,
    outs: Seq<OutputView>,
    i: int,
    j: int,
    k: int,
    l: int,
)
    requires
        goes_through(es, steps, outs),
        es[0].seq >= 1,
        steps.len() <= 0x7fff_ffff,
        0 <= i <= j < steps.len(),
        outs[i] is Encoded,
        outs[j] is Encoded,
        0 <= k < outs[i]->Encoded_0.len(),
        0 <= l < outs[j]->Encoded_0.len(),
    ensures
        (fec_codec::head_of(outs[i]->Encoded_0[k]).group_id == fec_codec::head_of(
            outs[j]->Encoded_0[l],
        ).group_id) <==> i == j,
{
    let _ = numbers_go_on(es, steps, outs, 0, i);
    let n = numbers_go_on(es, steps, outs, i, j);
    assert((outs[i], es[i + 1]) == stepped(es[i], steps[i]));
    assert((outs[j], es[j + 1]) == stepped(es[j], steps[j]));
    let _ = step_uses_numbers(es[i], steps[i]);
    let _ = step_uses_numbers(es[j], steps[j]);
    if i < j {
        group_ids_do_not_come_back(es[i].salt, es[i].seq, n);
    }
}

/// A new encoder counts its groups from one on, and its first group is told from those
/// of encoders with another number by chance.
pub proof fn new_encoders_differ(
    frame_type: u8,
    a: u32,
    b: u32,
    data: u8,
    parity: u8,
    shard: usize,
    standard: u64,
    aggressive: u64,
)
    ensures
        ({
            let x = fec::fresh(frame_type, a, data, parity, shard, standard, aggressive);
            let y = fec::fresh(frame_type, b, data, parity, shard, standard, aggressive);
            &&& x.seq >= 1
            &&& x.pending.len() == 0
            &&& (x.data, x.parity) == (data, parity)
            &&& a != b ==> x.salt ^ x.seq != y.salt ^ y.seq
        }),
{
    assert(a != b ==> a ^ 1u32 != b ^ 1u32) by (bit_vector);
}

/// An urgent packet never waits, a full group neither; and what waits was not told to
/// wait longer than any of its packets can.
pub proof fn nobody_waits_too_long(
    e: EncoderView,
    pkt: Seq<u8>,
    budget: Option<(usize, usize)>,
    now: u64,
)
    requires
        !fec::unfit(e, pkt),
    ensures
        ({
            let (out, e1) = fec::pushed(e, pkt, budget, now);
            &&& pkt.len() <= 255 ==> !(out is Buffered)
            &&& e.pending.len() + 1 >= e.data ==> !(out is Buffered)
            &&& out is Buffered ==> {
                &&& e1.pending.len() == e.pending.len() + 1
                &&& e1.timeout <= e1.standard
                    || e1.timeout <= e.timeout
                &&& 255 < pkt.len() <= 799 ==> e1.timeout <= e.aggressive
                &&& pkt.len() > 799 ==> e1.timeout <= e.standard
                &&& e.pending.len() > 0 ==> e1.timeout <= e.timeout
                &&& e1.first_at == if e.first_at is Some {
                    e.first_at
                } else {
                    Some(now)
                }
            }
            &&& !(out is Buffered) ==> e1.first_at is None && e1.pending.len() == 0
        }),
{
}

/// A group gets its share of parity, rounded up, at least one shard and never more than
/// the ratio says.
pub proof fn parity_is_shared_out(n: nat, data: u8, parity: u8)
    requires
        1 <= n <= data,
        parity > 0,
    ensures
        ({
            let p = fec::parity_share(n, data, parity);
            &&& 1 <= p <= parity
            &&& n * parity <= p * data
            &&& (p - 1) * data < n * parity
            &&& n == data ==> p == parity
        }),
{
    let a = n * parity;
    let d = data as int;
    let q = (a + d - 1) / d;
    assert(q * d <= a + d - 1 < q * d + d) by (nonlinear_arith)
        requires
            q == (a + d - 1) / d,
            d > 0,
    ;
    assert(a >= 1) by (nonlinear_arith)
        requires
            a == n * parity,
            n >= 1,
            parity >= 1,
    ;
    assert(a <= parity * d) by (nonlinear_arith)
        requires
            a == n * parity,
            n <= d,
            parity >= 0,
    ;
    assert(1 <= q) by (nonlinear_arith)
        requires
            a + d - 1 < q * d + d,
            a >= 1,
            d > 0,
    {
        assert(a >= 1);
        if q <= 0 {
            assert(q * d <= 0);
        }
    }
    assert(q <= parity) by (nonlinear_arith)
        requires
            q * d <= a + d - 1,
            a <= parity * d,
            d > 0,
    {
        if q >= parity + 1 {
            assert(q * d >= parity * d + d);
        }
    }
    assert((q - 1) * d == q * d - d) by (nonlinear_arith);
    if n == data {
        assert(a == parity * d) by (nonlinear_arith)
            requires
                a == n * parity,
                n == d,
        ;
        assert(q >= parity) by (nonlinear_arith)
            requires
                a == parity * d,
                a <= q * d,
                d > 0,
        ;
    }
}

/// A group goes out coded only where the queue has room for all of its frames, and
/// only where it has two packets at least; else its packets go out as they are.
pub proof fn coded_groups_fit_the_queue(e: EncoderView, queued: usize, cap: usize)
    requires
        e.pending.len() > 0,
        e.data > 0,
        e.parity > 0,
    ensures
        match fec::flushed(e, Some((queued, cap))).0 {
            OutputView::Encoded(frames) => {
                &&& e.pending.len() >= 2
                &&& e.pending.len() < frames.len() <= FEC_MAX_TOTAL_SHARDS
                &&& frames.len() <= cap
                &&& queued + frames.len() <= usize::MAX ==> queued + frames.len() <= cap
            },
            OutputView::Passthrough(pkts) => {
                &&& pkts == e.pending
                &&& e.pending.len() == 1 || e.pending.len() + e.parity > FEC_MAX_TOTAL_SHARDS
                    || queued + e.pending.len() + e.parity > cap
            },
            OutputView::Buffered => false,
        },
{
    let n = e.pending.len();
    let p = fec::parity_share(n, e.data, e.parity);
    assert(1 <= p <= e.parity);
    assert(fec::group_frames(e, p).len() == n + p);
}

/// A packet that does not fit its shard, or that comes while the code is off, goes out
/// at once, by itself and as it is; the encoder stays as it was.
pub proof fn unfit_packets_pass(
    e: EncoderView,
    pkt: Seq<u8>,
    budget: Option<(usize, usize)>,
    now: u64,
)
    ensures
        e.data == 0 || e.parity == 0 || pkt.len() + FEC_SHARD_LEN_PREFIX > e.shard || e.data
            + e.parity > FEC_MAX_TOTAL_SHARDS ==> {
            &&& fec::pushed(e, pkt, budget, now).0 == OutputView::Passthrough(seq![pkt])
            &&& fec::pushed(e, pkt, budget, now).1 == e
        },
{
}

/// A change of the ratio loses nothing: what waited goes out, coded or as it is, and the
/// encoder has the new ratio then. Without a change nothing happens.
pub proof fn ratio_changes_lose_nothing(
    e: EncoderView,
    data: u8,
    parity: u8,
    budget: Option<(usize, usize)>,
)
    ensures
        ({
            let (out, e1) = fec::reratioed(e, data, parity, budget);
            &&& (e1.data, e1.parity) == (data, parity)
            &&& (e.data, e.parity) == (data, parity) ==> out is Buffered && e1 == e
            &&& (e.data, e.parity) != (data, parity) ==> {
                &&& e1.pending.len() == 0
                &&& e1.first_at is None
                &&& out is Buffered <==> e.pending.len() == 0
                &&& out matches OutputView::Passthrough(p) ==> p == e.pending
                &&& out matches OutputView::Encoded(frames) ==> exists|p: nat|
                    frames == #[trigger] fec::group_frames(e, p)
            }
            &&& e1.salt == e.salt
            &&& e1.shard == e.shard
        }),
{
    assert(fec::group_frames(e, fec::parity_share(e.pending.len(), e.data, e.parity))
        == fec::group_frames(e, fec::parity_share(e.pending.len(), e.data, e.parity)));
}

/// The smaller a packet, the more urgent it is.
pub proof fn smaller_is_more_urgent(a: nat, b: nat)
    requires
        a <= b,
    ensures
        fec::policy_of(b) is Immediate ==> fec::policy_of(a) is Immediate,
        fec::policy_of(a) is Standard ==> fec::policy_of(b) is Standard,
        fec::policy_of(a) is Immediate <==> a < 256,
        fec::policy_of(a) is Standard <==> a >= 800,
{
}

} // verus!
