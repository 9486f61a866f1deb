//! The sender's side of the code: packets are gathered in groups, and each group
//! gets parity shards.
//!
//! Times are microseconds.

use crate::chance::random_u32;
use crate::fec_codec;
use crate::fec_codec::{build_fec_packet, fill_shard, rs_encode, FrameHead};
use crate::fec_ratio;
use crate::fec_ratio::{FEC_MAX_TOTAL_SHARDS, FEC_SHARD_LEN_PREFIX, FEC_SHARD_PAYLOAD_SIZE};
use vstd::prelude::*;

verus! {

/// How long a group waits for more packets.
pub const FEC_FLUSH_TIMEOUT: u64 = 2_000;

/// How long a group with packets of middle size waits for more packets.
pub const FEC_FLUSH_TIMEOUT_AGGRESSIVE: u64 = 1_000;

/// How many spare buffers are kept.
pub const FEC_POOL_MAX: usize = 32;

/// How urgent a packet is.
#[derive(Clone, Copy, Debug, PartialEq, Eq, Structural)]
pub enum FlushPolicy {
    Immediate,
    Aggressive,
    Standard,
}

/// How urgent a packet of `len` bytes is.
pub open spec fn policy_of(len: nat) -> FlushPolicy {
    if len <= 255 {
        FlushPolicy::Immediate
    } else if len <= 799 {
        FlushPolicy::Aggressive
    } else {
        FlushPolicy::Standard
    }
}

/// How urgent a packet of `len` bytes is: the smaller, the more.
pub fn classify_packet(len: usize) -> (out: FlushPolicy)
    ensures
        out == policy_of(len as nat),
{
    if len <= 255 {
        FlushPolicy::Immediate
    } else if len <= 799 {
        FlushPolicy::Aggressive
    } else {
        FlushPolicy::Standard
    }
}

/// What comes out of the encoder.
pub enum FecOutput {
    /// Nothing yet.
    Buffered,
    /// The frames of a group.
    Encoded(Vec<Vec<u8>>),
    /// Packets as they are.
    Passthrough(Vec<Vec<u8>>),
}

/// What comes out of the encoder.
pub ghost enum OutputView {
    Buffered,
    Encoded(Seq<Seq<u8>>),
    Passthrough(Seq<Seq<u8>>),
}

impl View for FecOutput {
    type V = OutputView;

    open spec fn view(&self) -> OutputView {
        match self {
            FecOutput::Buffered => OutputView::Buffered,
            FecOutput::Encoded(v) => OutputView::Encoded(fec_codec::bytes_of(v@)),
            FecOutput::Passthrough(v) => OutputView::Passthrough(fec_codec::bytes_of(v@)),
        }
    }
}

/// A packet that waits, and its shard.
pub struct PendingShard {
    pub original: Vec<u8>,
    pub shard: Vec<u8>,
}

/// Gathers packets in groups.
pub struct FecEncoder {
    pub frame_type: u8,
    pub group_salt: u32,
    pub group_seq: u32,
    pub data_shards: u8,
    pub parity_shards: u8,
    pub shard_buf: Vec<PendingShard>,
    pub first_at: Option<u64>,
    pub shard_pool: Vec<Vec<u8>>,
    pub group_flush_timeout: u64,
    pub shard_payload_size: usize,
    pub flush_standard: u64,
    pub flush_aggressive: u64,
}

/// An encoder.
#[verifier::ext_equal]
pub ghost struct EncoderView {
    pub frame_type: u8,
    pub salt: u32,
    pub seq: u32,
    pub data: u8,
    pub parity: u8,
    /// The packets that wait.
    pub pending: Seq<Seq<u8>>,
    /// When the first of them came.
    pub first_at: Option<u64>,
    /// How many spare buffers there are.
    pub pool: nat,
    /// How long the packets wait.
    pub timeout: u64,
    pub shard: usize,
    pub standard: u64,
    pub aggressive: u64,
}

/// The packets that wait.
pub open spec fn originals(v: Seq<PendingShard>) -> Seq<Seq<u8>> {
    Seq::new(v.len(), |i: int| v[i].original@)
}

/// The shards of packets.
pub open spec fn shards_of(pkts: Seq<Seq<u8>>, size: nat) -> Seq<Seq<u8>> {
    Seq::new(pkts.len(), |i: int| fec_codec::shard_of(pkts[i], size))
}

impl View for FecEncoder {
    type V = EncoderView;

    open spec fn view(&self) -> EncoderView {
        EncoderView {
            frame_type: self.frame_type,
            salt: self.group_salt,
            seq: self.group_seq,
            data: self.data_shards,
            parity: self.parity_shards,
            pending: originals(self.shard_buf@),
            first_at: self.first_at,
            pool: self.shard_pool@.len(),
            timeout: self.group_flush_timeout,
            shard: self.shard_payload_size,
            standard: self.flush_standard,
            aggressive: self.flush_aggressive,
        }
    }
}

/// The number of the next group; it is never zero.
pub open spec fn next_seq(s: u32) -> u32 {
    if s == u32::MAX {
        1
    } else {
        (s + 1) as u32
    }
}

/// How many spare buffers there are after `k` were taken.
pub open spec fn pool_taken(pool: nat, k: nat) -> nat {
    if k <= pool {
        (pool - k) as nat
    } else {
        0
    }
}

/// How many spare buffers there are after `k` were given back.
pub open spec fn pool_given(pool: nat, k: nat) -> nat {
    if pool >= FEC_POOL_MAX {
        pool
    } else if pool + k <= FEC_POOL_MAX {
        pool + k
    } else {
        FEC_POOL_MAX as nat
    }
}

/// The queue has no room for `k` packets more. The budget tells how many it has
/// and how many it takes.
pub open spec fn over_budget(budget: Option<(usize, usize)>, k: nat) -> bool {
    match budget {
        Some((queued, cap)) => (if queued + k > usize::MAX {
            usize::MAX as int
        } else {
            queued + k
        }) > cap,
        None => false,
    }
}

/// How long a packet can wait.
pub open spec fn patience(e: EncoderView, len: nat) -> u64 {
    match policy_of(len) {
        FlushPolicy::Immediate => 0,
        FlushPolicy::Aggressive => e.aggressive,
        FlushPolicy::Standard => e.standard,
    }
}

/// How many parity shards a group gets that is closed with `n` packets: its
/// share, rounded up.
pub open spec fn parity_share(n: nat, data: u8, parity: u8) -> nat {
    let share = (n * parity + data - 1) / data as int;
    if share < 1 {
        1
    } else if share > parity {
        parity as nat
    } else {
        share as nat
    }
}

/// The encoder once its group is gone, with `pool` spare buffers.
pub open spec fn group_gone(e: EncoderView, pool: nat) -> EncoderView {
    EncoderView {
        pending: Seq::empty(),
        first_at: None,
        timeout: e.standard,
        seq: next_seq(e.seq),
        pool,
        ..e
    }
}

/// The frames of a group with `parity` parity shards.
pub open spec fn group_frames(e: EncoderView, parity: nat) -> Seq<Seq<u8>> {
    let n = e.pending.len();
    let all = fec_codec::whole(shards_of(e.pending, e.shard as nat), parity);
    Seq::new(
        n + parity,
        |i: int|
            fec_codec::frame(
                e.frame_type,
                FrameHead {
                    group_id: e.salt ^ e.seq,
                    shard_idx: i as u8,
                    data_shards: n as u8,
                    parity_shards: parity as u8,
                },
                all[i],
            ),
    )
}

/// The group goes out coded.
pub open spec fn coded(e: EncoderView, parity: nat) -> (OutputView, EncoderView) {
    (
        OutputView::Encoded(group_frames(e, parity)),
        group_gone(e, pool_given(pool_taken(e.pool, parity), e.pending.len() + parity)),
    )
}

/// The group goes out as it is.
pub open spec fn uncoded(e: EncoderView) -> (OutputView, EncoderView) {
    (
        OutputView::Passthrough(e.pending),
        group_gone(e, pool_given(e.pool, e.pending.len())),
    )
}

/// The group is closed. A single packet goes out as it is, and so does a group
/// that has no room in the queue.
pub open spec fn flushed(e: EncoderView, budget: Option<(usize, usize)>) -> (
    OutputView,
    EncoderView,
) {
    let n = e.pending.len();
    let p = parity_share(n, e.data, e.parity);
    if n == 0 {
        (OutputView::Buffered, EncoderView { first_at: None, timeout: e.standard, ..e })
    } else if n < 2 || n + p > FEC_MAX_TOTAL_SHARDS || over_budget(budget, n + p) {
        uncoded(e)
    } else {
        coded(e, p)
    }
}

/// The packets that wait go out as they are.
pub open spec fn released(e: EncoderView) -> (OutputView, EncoderView) {
    if e.pending.len() == 0 {
        (OutputView::Buffered, EncoderView { first_at: None, timeout: e.standard, ..e })
    } else {
        uncoded(e)
    }
}

/// The packet does not go through the code.
pub open spec fn unfit(e: EncoderView, pkt: Seq<u8>) -> bool {
    ||| !fec_ratio::on((e.data, e.parity))
    ||| pkt.len() + FEC_SHARD_LEN_PREFIX > e.shard
    ||| e.data + e.parity > FEC_MAX_TOTAL_SHARDS
}

/// The group with one packet more.
pub open spec fn joined(e: EncoderView, pkt: Seq<u8>, now: u64) -> EncoderView {
    let t = if e.pending.len() == 0 {
        e.standard
    } else {
        e.timeout
    };
    let own = patience(e, pkt.len());
    EncoderView {
        timeout: if own < t {
            own
        } else {
            t
        },
        first_at: match e.first_at {
            Some(at) => Some(at),
            None => Some(now),
        },
        pool: pool_taken(e.pool, 1),
        pending: e.pending.push(pkt),
        ..e
    }
}

/// A packet comes: a full group goes out, and so does a group with an urgent
/// packet.
pub open spec fn pushed(
    e: EncoderView,
    pkt: Seq<u8>,
    budget: Option<(usize, usize)>,
    now: u64,
) -> (OutputView, EncoderView) {
    let e1 = joined(e, pkt, now);
    if unfit(e, pkt) {
        (OutputView::Passthrough(seq![pkt]), e)
    } else if e1.pending.len() >= e.data {
        if over_budget(budget, (e.data + e.parity) as nat) {
            uncoded(e1)
        } else {
            coded(e1, e.parity as nat)
        }
    } else if policy_of(pkt.len()) == FlushPolicy::Immediate {
        flushed(e1, budget)
    } else {
        (OutputView::Buffered, e1)
    }
}

/// The ratio changes: what waits goes out first.
pub open spec fn reratioed(
    e: EncoderView,
    data: u8,
    parity: u8,
    budget: Option<(usize, usize)>,
) -> (OutputView, EncoderView) {
    if e.data == data && e.parity == parity {
        (OutputView::Buffered, e)
    } else {
        let (out, e1) = flushed(e, budget);
        (
            out,
            EncoderView {
                pending: Seq::empty(),
                first_at: None,
                timeout: e.standard,
                seq: next_seq(e1.seq),
                data,
                parity,
                ..e1
            },
        )
    }
}

/// All frames have the size of a shard and of a head.
pub open spec fn frames_sized(out: OutputView, shard: nat) -> bool {
    out matches OutputView::Encoded(frames) ==> fec_codec::sized(
        frames,
        fec_ratio::FEC_COMPACT_HEADER_LEN as nat + shard,
    )
}

impl FecEncoder {
    /// The packets that wait are fewer than a group has, and each is in its shard.
    pub open spec fn wf(&self) -> bool {
        &&& forall|i: int|
            0 <= i < self.shard_buf@.len() ==> (#[trigger] self.shard_buf@[i]).shard@
                == fec_codec::shard_of(
                self.shard_buf@[i].original@,
                self.shard_payload_size as nat,
            ) && self.shard_buf@[i].original@.len() + FEC_SHARD_LEN_PREFIX
                <= self.shard_payload_size
        &&& self.shard_buf@.len() > 0 ==> fec_ratio::on((self.data_shards, self.parity_shards))
            && self.data_shards + self.parity_shards <= FEC_MAX_TOTAL_SHARDS
            && self.shard_buf@.len() < self.data_shards
    }

    /// What holds while a packet is taken in: the group can be full.
    spec fn wf_full(&self) -> bool {
        &&& forall|i: int|
            0 <= i < self.shard_buf@.len() ==> (#[trigger] self.shard_buf@[i]).shard@
                == fec_codec::shard_of(
                self.shard_buf@[i].original@,
                self.shard_payload_size as nat,
            ) && self.shard_buf@[i].original@.len() + FEC_SHARD_LEN_PREFIX
                <= self.shard_payload_size
        &&& self.shard_buf@.len() > 0 ==> fec_ratio::on((self.data_shards, self.parity_shards))
            && self.data_shards + self.parity_shards <= FEC_MAX_TOTAL_SHARDS
            && self.shard_buf@.len() <= self.data_shards
    }

    /// An encoder whose groups are told from those of other encoders by a number
    /// by chance.
    pub fn new(frame_type: u8, data_shards: u8, parity_shards: u8) -> (out: Self)
        ensures
            out.wf(),
            out@.salt != 0,
            out@ == fresh(
                frame_type,
                out@.salt,
                data_shards,
                parity_shards,
                FEC_SHARD_PAYLOAD_SIZE,
                FEC_FLUSH_TIMEOUT,
                FEC_FLUSH_TIMEOUT_AGGRESSIVE,
            ),
    {
        Self::with_flush(
            frame_type,
            data_shards,
            parity_shards,
            FEC_SHARD_PAYLOAD_SIZE,
            FEC_FLUSH_TIMEOUT,
            FEC_FLUSH_TIMEOUT_AGGRESSIVE,
        )
    }

    /// An encoder whose groups are told from those of other encoders by a number
    /// by chance.
    pub fn with_flush(
        frame_type: u8,
        data_shards: u8,
        parity_shards: u8,
        shard_payload_size: usize,
        flush_standard: u64,
        flush_aggressive: u64,
    ) -> (out: Self)
        ensures
            out.wf(),
            out@.salt != 0,
            out@ == fresh(
                frame_type,
                out@.salt,
                data_shards,
                parity_shards,
                shard_payload_size,
                flush_standard,
                flush_aggressive,
            ),
    {
        Self::with_salt(
            frame_type,
            random_u32(),
            data_shards,
            parity_shards,
            shard_payload_size,
            flush_standard,
            flush_aggressive,
        )
    }

    /// An encoder whose groups are told from those of other encoders by `salt`.
    pub fn with_salt(
        frame_type: u8,
        salt: u32,
        data_shards: u8,
        parity_shards: u8,
        shard_payload_size: usize,
        flush_standard: u64,
        flush_aggressive: u64,
    ) -> (out: Self)
        ensures
            out.wf(),
            out@ == fresh(
                frame_type,
                if salt == 0 {
                    0x9e37_79b9
                } else {
                    salt
                },
                data_shards,
                parity_shards,
                shard_payload_size,
                flush_standard,
                flush_aggressive,
            ),
    {
        let group_salt: u32 = if salt == 0 {
            0x9e37_79b9
        } else {
            salt
        };
        let out = FecEncoder {
            frame_type,
            group_salt,
            group_seq: 1,
            data_shards,
            parity_shards,
            shard_buf: Vec::new(),
            first_at: None,
            shard_pool: Vec::new(),
            group_flush_timeout: flush_standard,
            shard_payload_size,
            flush_standard,
            flush_aggressive,
        };
        proof {
            assert(out@.pending =~= Seq::<Seq<u8>>::empty());
        }
        out
    }

    /// Changes the size of shards and how long groups wait. A change of the size
    /// needs that no packet waits.
    pub fn apply_tuning(
        &mut self,
        shard_payload_size: usize,
        flush_standard: u64,
        flush_aggressive: u64,
    )
        requires
            old(self).wf(),
            old(self)@.shard == shard_payload_size || old(self)@.pending.len() == 0,
        ensures
            final(self).wf(),
            final(self)@ == (EncoderView {
                shard: shard_payload_size,
                standard: flush_standard,
                aggressive: flush_aggressive,
                pool: if old(self)@.shard == shard_payload_size {
                    old(self)@.pool
                } else {
                    0
                },
                ..old(self)@
            }),
    {
        if shard_payload_size != self.shard_payload_size {
            self.shard_pool.clear();
        }
        self.shard_payload_size = shard_payload_size;
        self.flush_standard = flush_standard;
        self.flush_aggressive = flush_aggressive;
    }

    pub fn shard_payload_size(&self) -> (out: usize)
        ensures
            out == self@.shard,
    {
        self.shard_payload_size
    }

    /// How many spare buffers there are.
    pub fn shard_pool_len(&self) -> (out: usize)
        ensures
            out == self@.pool,
    {
        self.shard_pool.len()
    }

    /// How many packets wait.
    pub fn pending_len(&self) -> (out: usize)
        ensures
            out == self@.pending.len(),
    {
        self.shard_buf.len()
    }

    pub fn ratio(&self) -> (out: (u8, u8))
        ensures
            out == (self@.data, self@.parity),
    {
        (self.data_shards, self.parity_shards)
    }

    /// Whether the packets have waited long enough.
    pub fn needs_flush(&self, now: u64) -> (out: bool)
        ensures
            out == (self@.first_at matches Some(t) && crate::engine_state::elapsed(now, t)
                >= self@.timeout),
    {
        match self.first_at {
            Some(t) => crate::engine_state::since(now, t) >= self.group_flush_timeout,
            None => false,
        }
    }

    fn flush_timeout_for_policy(&self, policy: FlushPolicy) -> (out: u64)
        ensures
            out == match policy {
                FlushPolicy::Immediate => 0,
                FlushPolicy::Aggressive => self.flush_aggressive,
                FlushPolicy::Standard => self.flush_standard,
            },
    {
        match policy {
            FlushPolicy::Immediate => 0,
            FlushPolicy::Aggressive => self.flush_aggressive,
            FlushPolicy::Standard => self.flush_standard,
        }
    }

    /// A buffer of zeros, a spare one if there is one.
    pub fn take_shard_buf(&mut self) -> (out: Vec<u8>)
        ensures
            out@.len() == old(self).shard_payload_size,
            forall|i: int| 0 <= i < out@.len() ==> (#[trigger] out@[i]) == 0,
            final(self).shard_pool@.len() == pool_taken(old(self).shard_pool@.len(), 1),
            *final(self) == (FecEncoder { shard_pool: final(self).shard_pool, ..*old(self) }),
            final(self)@ == (EncoderView { pool: pool_taken(old(self)@.pool, 1), ..old(self)@ }),
            old(self).wf() ==> final(self).wf(),
    {
        let size: usize = self.shard_payload_size;
        let mut out: Vec<u8> = match self.shard_pool.pop() {
            Some(v) => v,
            None => Vec::new(),
        };
        out.clear();
        while out.len() < size
            invariant
                out@.len() <= size,
                forall|i: int| 0 <= i < out@.len() ==> (#[trigger] out@[i]) == 0,
            decreases size - out@.len(),
        {
            out.push(0);
        }
        out
    }

    /// Keeps a buffer as a spare one, unless there are enough or it has another
    /// size.
    pub fn return_shard_buf(&mut self, v: Vec<u8>)
        ensures
            final(self).shard_pool@.len() == pool_given(
                old(self).shard_pool@.len(),
                if v@.len() == old(self).shard_payload_size {
                    1
                } else {
                    0
                },
            ),
            *final(self) == (FecEncoder { shard_pool: final(self).shard_pool, ..*old(self) }),
    {
        if v.len() == self.shard_payload_size && self.shard_pool.len() < FEC_POOL_MAX {
            self.shard_pool.push(v);
        }
    }

    /// Keeps buffers as spare ones.
    fn return_all(&mut self, all: Vec<Vec<u8>>)
        requires
            fec_codec::sized(fec_codec::bytes_of(all@), old(self).shard_payload_size as nat),
        ensures
            final(self).shard_pool@.len() == pool_given(old(self).shard_pool@.len(), all@.len()),
            *final(self) == (FecEncoder { shard_pool: final(self).shard_pool, ..*old(self) }),
    {
        let ghost n0 = self.shard_pool@.len();
        let ghost size = self.shard_payload_size as nat;
        let ghost b = fec_codec::bytes_of(all@);
        let total: usize = all.len();
        let mut rest = all;
        while rest.len() > 0
            invariant
                rest@.len() <= total,
                b.len() == total,
                fec_codec::sized(b, size),
                size == self.shard_payload_size,
                fec_codec::bytes_of(rest@) =~= b.take(rest@.len() as int),
                self.shard_pool@.len() == pool_given(n0, (total - rest@.len()) as nat),
                *self == (FecEncoder { shard_pool: self.shard_pool, ..*old(self) }),
            decreases rest@.len(),
        {
            let ghost before = rest@;
            if let Some(v) = rest.pop() {
                proof {
                    assert(v@ == fec_codec::bytes_of(before)[before.len() - 1]);
                    assert(v@ == b[before.len() - 1]);
                }
                self.return_shard_buf(v);
            }
        }
    }

    /// Lets the packets go out as they are.
    fn take_passthrough_packets(&mut self) -> (out: Vec<Vec<u8>>)
        requires
            old(self).wf_full(),
        ensures
            final(self).wf(),
            fec_codec::bytes_of(out@) == old(self)@.pending,
            final(self)@ == uncoded(old(self)@).1,
    {
        let ghost v0 = self@;
        let (originals, shards) = self.split_pending();
        proof {
            assert(shards@.len() == fec_codec::bytes_of(shards@).len());
        }
        self.return_all(shards);
        self.close_group();
        proof {
            assert(self@ =~= uncoded(v0).1);
        }
        originals
    }

    /// Takes the packets that wait and their shards.
    fn split_pending(&mut self) -> (out: (Vec<Vec<u8>>, Vec<Vec<u8>>))
        requires
            old(self).wf_full(),
        ensures
            fec_codec::bytes_of(out.0@) == old(self)@.pending,
            fec_codec::bytes_of(out.1@) == shards_of(
                old(self)@.pending,
                old(self).shard_payload_size as nat,
            ),
            fec_codec::sized(
                fec_codec::bytes_of(out.1@),
                old(self).shard_payload_size as nat,
            ),
            final(self).shard_buf@.len() == 0,
            *final(self) == (FecEncoder { shard_buf: final(self).shard_buf, ..*old(self) }),
    {
        let ghost all = self.shard_buf@;
        let ghost size = self.shard_payload_size as nat;
        let mut rest: Vec<PendingShard> = Vec::new();
        rest.append(&mut self.shard_buf);
        let mut originals: Vec<Vec<u8>> = Vec::new();
        let mut shards: Vec<Vec<u8>> = Vec::new();
        let ghost mut k: int = 0;
        proof {
            assert(rest@ =~= all.skip(0));
        }
        while rest.len() > 0
            invariant
                0 <= k <= all.len(),
                rest@ == all.skip(k),
                originals@.len() == k,
                shards@.len() == k,
                forall|i: int| 0 <= i < k ==> (#[trigger] originals@[i])@ == all[i].original@,
                forall|i: int| 0 <= i < k ==> (#[trigger] shards@[i])@ == all[i].shard@,
            decreases rest@.len(),
        {
            let p = rest.remove(0);
            proof {
                assert(p == all[k]);
                assert(rest@ =~= all.skip(k + 1));
                k = k + 1;
            }
            originals.push(p.original);
            shards.push(p.shard);
        }
        proof {
            let pend = old(self)@.pending;
            assert(fec_codec::bytes_of(originals@) =~= pend);
            assert forall|i: int| 0 <= i < all.len() implies (#[trigger] shards@[i])@
                == fec_codec::shard_of(pend[i], size) && shards@[i]@.len() == size by {
                assert(all[i].shard@ == fec_codec::shard_of(all[i].original@, size));
            }
            assert(fec_codec::bytes_of(shards@) =~= shards_of(pend, size));
        }
        (originals, shards)
    }

    /// Goes on to the next group.
    fn close_group(&mut self)
        requires
            old(self).shard_buf@.len() == 0,
        ensures
            final(self).wf(),
            final(self)@ == group_gone(old(self)@, old(self)@.pool),
    {
        self.first_at = None;
        self.group_flush_timeout = self.flush_standard;
        self.group_seq = if self.group_seq == u32::MAX {
            1
        } else {
            self.group_seq + 1
        };
        proof {
            assert(self@.pending =~= Seq::<Seq<u8>>::empty());
        }
    }

    fn take_passthrough(&mut self) -> (out: FecOutput)
        requires
            old(self).wf_full(),
        ensures
            final(self).wf(),
            (out@, final(self)@) == uncoded(old(self)@),
    {
        FecOutput::Passthrough(self.take_passthrough_packets())
    }

    /// Codes the group with `parity` parity shards.
    fn encode_and_reset(&mut self, parity: usize) -> (out: FecOutput)
        requires
            old(self).wf_full(),
            old(self).shard_buf@.len() > 0,
            0 < parity,
            old(self).shard_buf@.len() + parity <= FEC_MAX_TOTAL_SHARDS,
        ensures
            final(self).wf(),
            (out@, final(self)@) == coded(old(self)@, parity as nat),
            frames_sized(out@, old(self)@.shard as nat),
    {
        let ghost v0 = self@;
        let n: usize = self.shard_buf.len();
        let ghost size = self.shard_payload_size as nat;
        let ghost data = shards_of(v0.pending, size);
        proof {
            assert(self.shard_buf@[0].original@.len() + FEC_SHARD_LEN_PREFIX <= size);
        }
        let (originals, mut all) = self.split_pending();
        proof {
            assert(all@.len() == fec_codec::bytes_of(all@).len());
        }
        let mut k: usize = 0;
        while k < parity
            invariant
                k <= parity,
                all@.len() == n + k,
                data.len() == n,
                size == self.shard_payload_size,
                fec_codec::sized(fec_codec::bytes_of(all@), size),
                fec_codec::bytes_of(all@).take(n as int) =~= data,
                self.shard_pool@.len() == pool_taken(v0.pool, k as nat),
                self.shard_buf@.len() == 0,
                *self == (FecEncoder {
                    shard_buf: self.shard_buf,
                    shard_pool: self.shard_pool,
                    ..*old(self)
                }),
            decreases parity - k,
        {
            let b = self.take_shard_buf();
            let ghost before = fec_codec::bytes_of(all@);
            all.push(b);
            proof {
                assert(fec_codec::bytes_of(all@) =~= before.push(b@));
                assert(fec_codec::bytes_of(all@).take(n as int) =~= before.take(n as int));
            }
            k += 1;
        }
        proof {
            assert(fec_codec::encodable(n as nat, parity as nat, fec_codec::bytes_of(all@)));
        }
        if !rs_encode(n, parity, &mut all) {
            self.close_group();
            return FecOutput::Encoded(originals);
        }
        let ghost whole = fec_codec::whole(data, parity as nat);
        let group_id: u32 = self.group_salt ^ self.group_seq;
        let mut out: Vec<Vec<u8>> = Vec::new();
        let mut idx: usize = 0;
        let ghost want = group_frames(v0, parity as nat);
        while idx < n + parity
            invariant
                idx <= n + parity,
                n + parity <= FEC_MAX_TOTAL_SHARDS,
                all@.len() == n + parity,
                fec_codec::bytes_of(all@) == whole,
                fec_codec::sized(whole, size),
                whole == fec_codec::whole(shards_of(v0.pending, v0.shard as nat), parity as nat),
                n == v0.pending.len(),
                group_id == v0.salt ^ v0.seq,
                self.frame_type == v0.frame_type,
                want == group_frames(v0, parity as nat),
                out@.len() == idx,
                forall|i: int| 0 <= i < idx ==> (#[trigger] out@[i])@ == want[i],
                forall|i: int|
                    0 <= i < idx ==> (#[trigger] out@[i])@.len()
                        == fec_ratio::FEC_COMPACT_HEADER_LEN + size,
            decreases n + parity - idx,
        {
            let h = FrameHead {
                group_id,
                shard_idx: idx as u8,
                data_shards: n as u8,
                parity_shards: parity as u8,
            };
            let f = build_fec_packet(self.frame_type, h, &all[idx]);
            proof {
                assert(all@[idx as int]@ == whole[idx as int]);
            }
            out.push(f);
            idx += 1;
        }
        proof {
            assert(fec_codec::bytes_of(out@) =~= want);
        }
        self.return_all(all);
        self.close_group();
        proof {
            assert(self@ =~= coded(v0, parity as nat).1);
        }
        FecOutput::Encoded(out)
    }

    /// Closes the group.
    pub fn flush(&mut self, queue_budget: Option<(usize, usize)>) -> (out: FecOutput)
        requires
            old(self).wf(),
        ensures
            final(self).wf(),
            (out@, final(self)@) == flushed(old(self)@, queue_budget),
            frames_sized(out@, old(self)@.shard as nat),
    {
        let n: usize = self.shard_buf.len();
        if n == 0 {
            self.first_at = None;
            self.group_flush_timeout = self.flush_standard;
            proof {
                assert(self@ =~= flushed(old(self)@, queue_budget).1);
            }
            return FecOutput::Buffered;
        }
        if n < 2 {
            return self.take_passthrough();
        }
        let data: usize = self.data_shards as usize;
        let configured: usize = self.parity_shards as usize;
        proof {
            assert(n * configured <= 64 * 64) by (nonlinear_arith)
                requires
                    n <= 64,
                    configured <= 64,
            ;
        }
        let mut parity: usize = (n * configured + data - 1) / data;
        if parity < 1 {
            parity = 1;
        }
        if parity > configured {
            parity = configured;
        }
        proof {
            assert(parity == parity_share(n as nat, self.data_shards, self.parity_shards));
        }
        if n + parity > FEC_MAX_TOTAL_SHARDS || no_room(queue_budget, n + parity) {
            return self.take_passthrough();
        }
        self.encode_and_reset(parity)
    }

    /// Lets the packets go out as they are.
    pub fn flush_passthrough(&mut self) -> (out: FecOutput)
        requires
            old(self).wf(),
        ensures
            final(self).wf(),
            (out@, final(self)@) == released(old(self)@),
    {
        if self.shard_buf.len() == 0 {
            self.first_at = None;
            self.group_flush_timeout = self.flush_standard;
            return FecOutput::Buffered;
        }
        self.take_passthrough()
    }

    pub fn update_ratio(&mut self, data_shards: u8, parity_shards: u8)
        requires
            old(self).wf(),
        ensures
            final(self).wf(),
            final(self)@ == reratioed(old(self)@, data_shards, parity_shards, None).1,
    {
        let _ = self.update_ratio_with_flush(data_shards, parity_shards, None);
    }

    /// Changes the ratio. What waits goes out first.
    pub fn update_ratio_with_flush(
        &mut self,
        data_shards: u8,
        parity_shards: u8,
        queue_budget: Option<(usize, usize)>,
    ) -> (out: FecOutput)
        requires
            old(self).wf(),
        ensures
            final(self).wf(),
            (out@, final(self)@) == reratioed(old(self)@, data_shards, parity_shards, queue_budget),
            frames_sized(out@, old(self)@.shard as nat),
    {
        if self.data_shards == data_shards && self.parity_shards == parity_shards {
            return FecOutput::Buffered;
        }
        let ghost v0 = self@;
        let pending = self.flush(queue_budget);
        proof {
            assert(self@.pending.len() == 0);
        }
        self.close_group();
        proof {
            assert(self.shard_buf@.len() == self@.pending.len());
        }
        self.data_shards = data_shards;
        self.parity_shards = parity_shards;
        proof {
            assert(self@ =~= reratioed(v0, data_shards, parity_shards, queue_budget).1);
        }
        pending
    }

    /// Takes a packet; gives what goes out, if anything does.
    pub fn push(&mut self, pkt: Vec<u8>, now: u64) -> (out: Option<Vec<Vec<u8>>>)
        requires
            old(self).wf(),
        ensures
            final(self).wf(),
            final(self)@ == pushed(old(self)@, pkt@, None, now).1,
            match pushed(old(self)@, pkt@, None, now).0 {
                OutputView::Buffered => out is None,
                OutputView::Encoded(v) => out is Some && fec_codec::bytes_of(out->0@) == v,
                OutputView::Passthrough(v) => out is Some && fec_codec::bytes_of(out->0@) == v,
            },
    {
        match self.push_output(pkt, None, now) {
            FecOutput::Buffered => None,
            FecOutput::Encoded(pkts) => Some(pkts),
            FecOutput::Passthrough(pkts) => Some(pkts),
        }
    }

    /// Takes a packet.
    pub fn push_output(
        &mut self,
        pkt: Vec<u8>,
        queue_budget: Option<(usize, usize)>,
        now: u64,
    ) -> (out: FecOutput)
        requires
            old(self).wf(),
        ensures
            final(self).wf(),
            (out@, final(self)@) == pushed(old(self)@, pkt@, queue_budget, now),
            frames_sized(out@, old(self)@.shard as nat),
    {
        let ghost v0 = self@;
        let ghost bytes = pkt@;
        let total: usize = self.data_shards as usize + self.parity_shards as usize;
        let len: usize = pkt.len();
        if self.data_shards == 0 || self.parity_shards == 0 || len > self.shard_payload_size
            || self.shard_payload_size - len < FEC_SHARD_LEN_PREFIX || total
            > FEC_MAX_TOTAL_SHARDS {
            let mut v: Vec<Vec<u8>> = Vec::new();
            v.push(pkt);
            proof {
                assert(fec_codec::bytes_of(v@) =~= seq![bytes]);
            }
            return FecOutput::Passthrough(v);
        }
        let policy = classify_packet(len);
        if self.shard_buf.len() == 0 {
            self.group_flush_timeout = self.flush_standard;
        }
        let own: u64 = self.flush_timeout_for_policy(policy);
        if own < self.group_flush_timeout {
            self.group_flush_timeout = own;
        }
        if self.first_at.is_none() {
            self.first_at = Some(now);
        }
        let mut shard = self.take_shard_buf();
        fill_shard(&mut shard, &pkt);
        let ghost before = self.shard_buf@;
        self.shard_buf.push(PendingShard { original: pkt, shard });
        proof {
            assert(self@.pending =~= v0.pending.push(bytes));
            assert(self@ =~= joined(v0, bytes, now));
            assert(self.wf_full());
        }
        if self.shard_buf.len() >= self.data_shards as usize {
            if no_room(queue_budget, total) {
                return self.take_passthrough();
            }
            return self.encode_and_reset(self.parity_shards as usize);
        }
        if policy == FlushPolicy::Immediate {
            return self.flush(queue_budget);
        }
        FecOutput::Buffered
    }
}

/// Whether the queue has no room for `k` packets more.
fn no_room(budget: Option<(usize, usize)>, k: usize) -> (out: bool)
    ensures
        out == over_budget(budget, k as nat),
{
    match budget {
        Some((queued, cap)) => queued.saturating_add(k) > cap,
        None => false,
    }
}

/// An encoder that has taken no packet yet.
pub open spec fn fresh(
    frame_type: u8,
    salt: u32,
    data: u8,
    parity: u8,
    shard: usize,
    standard: u64,
    aggressive: u64,
) -> EncoderView {
    EncoderView {
        frame_type,
        salt,
        seq: 1,
        data,
        parity,
        pending: Seq::empty(),
        first_at: None,
        pool: 0,
        timeout: standard,
        shard,
        standard,
        aggressive,
    }
}

/// A group has another number than the group after it.
pub proof fn next_group_has_another_id(salt: u32, seq: u32)
    ensures
        salt ^ seq != salt ^ next_seq(seq),
{
    let n = next_seq(seq);
    assert(n != seq);
    assert(n != seq ==> salt ^ seq != salt ^ n) by (bit_vector);
}

/// No packet is lost or sent twice: what waits and what goes out as it is are
/// the packets that came, in their order; what goes out coded are their frames.
pub proof fn packets_stay_in_order(
    e: EncoderView,
    pkt: Seq<u8>,
    budget: Option<(usize, usize)>,
    now: u64,
)
    requires
        !unfit(e, pkt),
    ensures
        ({
            let (out, e1) = pushed(e, pkt, budget, now);
            let all = e.pending.push(pkt);
            match out {
                OutputView::Buffered => e1.pending == all,
                OutputView::Passthrough(v) => v == all && e1.pending.len() == 0,
                OutputView::Encoded(frames) => e1.pending.len() == 0 && exists|p: nat|
                    1 <= p <= e.parity && frames == #[trigger] group_frames(
                        joined(e, pkt, now),
                        p,
                    ),
            }
        }),
{
    let e1 = joined(e, pkt, now);
    let n = e1.pending.len();
    let p = parity_share(n, e.data, e.parity);
    assert(1 <= p <= e.parity);
    assert(group_frames(e1, e.parity as nat) == group_frames(e1, e.parity as nat));
    assert(group_frames(e1, p) == group_frames(e1, p));
}

} // verus!
