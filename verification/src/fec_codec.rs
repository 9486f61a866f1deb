//! The frames in which shards travel, and the code that fills in lost shards.

use crate::fec_ratio::{FEC_COMPACT_HEADER_LEN, FEC_SHARD_LEN_PREFIX};
use reed_solomon_erasure::galois_8::ReedSolomon;
use vstd::prelude::*;

verus! {

/// The bytes of a list of buffers.
pub open spec fn bytes_of(v: Seq<Vec<u8>>) -> Seq<Seq<u8>> {
    Seq::new(v.len(), |i: int| v[i]@)
}

/// The bytes of the shards that are there.
pub open spec fn slots(v: Seq<Option<Vec<u8>>>) -> Seq<Option<Seq<u8>>> {
    Seq::new(
        v.len(),
        |i: int|
            match v[i] {
                Some(s) => Some(s@),
                None => None,
            },
    )
}

/// How many of the first `n` shards are there.
pub open spec fn present(r: Seq<Option<Seq<u8>>>, n: nat) -> nat
    decreases n,
{
    if n == 0 {
        0
    } else {
        present(r, (n - 1) as nat) + if r[n - 1] is Some {
            1nat
        } else {
            0nat
        }
    }
}

/// All of `s` are `size` bytes long.
pub open spec fn sized(s: Seq<Seq<u8>>, size: nat) -> bool {
    forall|i: int| 0 <= i < s.len() ==> (#[trigger] s[i]).len() == size
}

/// All shards that are there are `size` bytes long.
pub open spec fn slots_sized(r: Seq<Option<Seq<u8>>>, size: nat) -> bool {
    forall|i: int|
        0 <= i < r.len() && (#[trigger] r[i]) is Some ==> r[i]->0.len() == size
}

/// There is a code for `data` data shards and `parity` parity shards.
pub open spec fn codable(data: nat, parity: nat) -> bool {
    0 < data && 0 < parity && data + parity <= 256
}

/// The parity shards that `ReedSolomon::encode` gives for data shards.
pub uninterp spec fn rs_parity(data: Seq<Seq<u8>>, parity: nat) -> Seq<Seq<u8>>;

/// The shards that `ReedSolomon::reconstruct` makes of those that are there.
pub uninterp spec fn rs_rebuilt(
    data: nat,
    parity: nat,
    received: Seq<Option<Seq<u8>>>,
) -> Seq<Option<Seq<u8>>>;

/// The shards of a group: its data shards, then its parity shards.
pub open spec fn whole(data: Seq<Seq<u8>>, parity: nat) -> Seq<Seq<u8>> {
    data + rs_parity(data, parity)
}

/// Whatever was received is a shard of the group with the data shards `data`.
pub open spec fn agrees(received: Seq<Option<Seq<u8>>>, data: Seq<Seq<u8>>, parity: nat) -> bool {
    forall|i: int|
        0 <= i < received.len() && (#[trigger] received[i]) is Some ==> received[i]->0 == whole(
            data,
            parity,
        )[i]
}

/// Lost shards can be filled in: enough shards of one size are there.
pub open spec fn rebuildable(data: nat, parity: nat, received: Seq<Option<Seq<u8>>>) -> bool {
    &&& codable(data, parity)
    &&& received.len() == data + parity
    &&& present(received, received.len()) >= data
    &&& exists|size: nat| size > 0 && #[trigger] slots_sized(received, size)
}

/// The shards can be coded: there are as many as the code has, all of one size.
pub open spec fn encodable(data: nat, parity: nat, all: Seq<Seq<u8>>) -> bool {
    &&& codable(data, parity)
    &&& all.len() == data + parity
    &&& exists|size: nat| size > 0 && #[trigger] sized(all, size)
}

/// Fills in the parity shards, which stand behind the data shards.
///
/// Calls `reed_solomon_erasure::galois_8::ReedSolomon::new` and its `encode`.
/// Claimed is when they succeed, that a failure changes nothing, that data shards
/// stay as they are, that all sizes stay, and that the parity shards depend on
/// the data shards and on the numbers of shards alone.
#[verifier::external_body]
pub(crate) fn rs_encode(data: usize, parity: usize, all: &mut Vec<Vec<u8>>) -> (ok: bool)
    requires
        data + parity <= usize::MAX,
    ensures
        ok == encodable(data as nat, parity as nat, bytes_of(old(all)@)),
        !ok ==> final(all)@ == old(all)@,
        ok ==> bytes_of(final(all)@) == bytes_of(old(all)@).take(data as int) + rs_parity(
            bytes_of(old(all)@).take(data as int),
            parity as nat,
        ),
        ok ==> final(all)@.len() == old(all)@.len(),
        ok ==> forall|size: nat| #[trigger]
            sized(bytes_of(old(all)@), size) ==> sized(bytes_of(final(all)@), size),
{
    match ReedSolomon::new(data, parity) {
        Ok(rs) => rs.encode(all).is_ok(),
        Err(_) => false,
    }
}

/// Fills in the shards that are not there.
///
/// Calls `reed_solomon_erasure::galois_8::ReedSolomon::new` and its
/// `reconstruct`. Claimed is when they succeed, that a failure changes nothing,
/// that the shards depend on those that were there and on the numbers of shards
/// alone, that all are there then and have one size, and that they are the data
/// shards of the group whose shards were there.
#[verifier::external_body]
pub(crate) fn rs_reconstruct(
    data: usize,
    parity: usize,
    received: &mut Vec<Option<Vec<u8>>>,
) -> (ok: bool)
    requires
        data + parity <= usize::MAX,
    ensures
        ok == rebuildable(data as nat, parity as nat, slots(old(received)@)),
        !ok ==> final(received)@ == old(received)@,
        ok ==> slots(final(received)@) == rs_rebuilt(
            data as nat,
            parity as nat,
            slots(old(received)@),
        ),
        ok ==> final(received)@.len() == old(received)@.len(),
        ok ==> forall|i: int|
            0 <= i < final(received)@.len() ==> (#[trigger] slots(final(received)@)[i]) is Some,
        ok ==> forall|size: nat| #[trigger]
            slots_sized(slots(old(received)@), size) ==> slots_sized(
                slots(final(received)@),
                size,
            ),
        ok ==> forall|group: Seq<Seq<u8>>| #[trigger]
            agrees(slots(old(received)@), group, parity as nat) && group.len() == data && (exists|
                size: nat,
            | #[trigger]
                sized(group, size)) ==> forall|i: int|
                0 <= i < data ==> (#[trigger] slots(final(received)@)[i])->0 == group[i],
{
    match ReedSolomon::new(data, parity) {
        Ok(rs) => rs.reconstruct(received).is_ok(),
        Err(_) => false,
    }
}

/// The two bytes of the low half of a length, the lower byte first.
pub open spec fn le16(n: nat) -> Seq<u8> {
    seq![(n % 256) as u8, (n / 256 % 256) as u8]
}

/// The number that two bytes stand for.
pub open spec fn le16_value(a: u8, b: u8) -> nat {
    (a + 256 * b) as nat
}

/// The four bytes of a number, the lowest first.
pub open spec fn le32(n: u32) -> Seq<u8> {
    seq![
        (n % 256) as u8,
        (n / 256 % 256) as u8,
        (n / 65536 % 256) as u8,
        (n / 16777216) as u8,
    ]
}

/// The number that four bytes stand for.
pub open spec fn le32_value(a: u8, b: u8, c: u8, d: u8) -> u32 {
    (a + 256 * b + 65536 * c + 16777216 * d) as u32
}

pub fn le16_at(a: u8, b: u8) -> (n: usize)
    ensures
        n == le16_value(a, b),
{
    a as usize + 256 * (b as usize)
}

pub fn le32_at(a: u8, b: u8, c: u8, d: u8) -> (n: u32)
    ensures
        n == le32_value(a, b, c, d),
{
    a as u32 + 256 * (b as u32) + 65536 * (c as u32) + 16777216 * (d as u32)
}

/// The head of a frame.
#[derive(Clone, Copy, Debug, PartialEq, Eq, Structural)]
pub struct FrameHead {
    pub group_id: u32,
    pub shard_idx: u8,
    pub data_shards: u8,
    pub parity_shards: u8,
}

/// The head of a frame, as bytes.
pub open spec fn head_bytes(frame_type: u8, h: FrameHead, len: nat) -> Seq<u8> {
    seq![frame_type] + le32(h.group_id) + seq![h.shard_idx, h.data_shards, h.parity_shards] + le16(
        len,
    )
}

/// A frame with a shard.
pub open spec fn frame(frame_type: u8, h: FrameHead, shard: Seq<u8>) -> Seq<u8> {
    head_bytes(frame_type, h, shard.len()) + shard
}

/// The head that a frame shows.
pub open spec fn head_of(raw: Seq<u8>) -> FrameHead {
    FrameHead {
        group_id: le32_value(raw[1], raw[2], raw[3], raw[4]),
        shard_idx: raw[5],
        data_shards: raw[6],
        parity_shards: raw[7],
    }
}

/// The length of the shard that a frame shows.
pub open spec fn shard_len_of(raw: Seq<u8>) -> nat {
    le16_value(raw[8], raw[9])
}

fn append_bytes(out: &mut Vec<u8>, more: &Vec<u8>)
    ensures
        final(out)@ == old(out)@ + more@,
{
    let ghost o0 = out@;
    let mut i: usize = 0;
    proof {
        assert(o0 + more@.take(0) =~= o0);
    }
    while i < more.len()
        invariant
            i <= more@.len(),
            out@ == o0 + more@.take(i as int),
        decreases more@.len() - i,
    {
        out.push(more[i]);
        proof {
            assert(o0 + more@.take(i + 1) =~= (o0 + more@.take(i as int)).push(more@[i as int]));
        }
        i += 1;
    }
    proof {
        assert(more@.take(more@.len() as int) =~= more@);
    }
}

/// Puts a shard in a frame.
pub fn build_fec_packet(frame_type: u8, h: FrameHead, shard: &Vec<u8>) -> (out: Vec<u8>)
    ensures
        out@ == frame(frame_type, h, shard@),
{
    let g: u32 = h.group_id;
    let n: usize = shard.len();
    let mut out: Vec<u8> = Vec::with_capacity(FEC_COMPACT_HEADER_LEN);
    out.push(frame_type);
    out.push((g % 256) as u8);
    out.push((g / 256 % 256) as u8);
    out.push((g / 65536 % 256) as u8);
    out.push((g / 16777216) as u8);
    out.push(h.shard_idx);
    out.push(h.data_shards);
    out.push(h.parity_shards);
    out.push((n % 256) as u8);
    out.push((n / 256 % 256) as u8);
    proof {
        assert(out@ =~= head_bytes(frame_type, h, shard@.len()));
    }
    append_bytes(&mut out, shard);
    out
}

/// A shard with a packet: its length, its bytes, and zeros up to `size`.
pub open spec fn shard_of(pkt: Seq<u8>, size: nat) -> Seq<u8> {
    le16(pkt.len()) + pkt + Seq::new(
        (size - pkt.len() - FEC_SHARD_LEN_PREFIX) as nat,
        |i: int| 0u8,
    )
}

/// The packet in a shard, if the shard holds as many bytes as it says.
pub open spec fn packet_of(shard: Seq<u8>) -> Option<Seq<u8>> {
    let n = le16_value(shard[0], shard[1]);
    if n + FEC_SHARD_LEN_PREFIX > shard.len() {
        None
    } else {
        Some(shard.subrange(FEC_SHARD_LEN_PREFIX as int, FEC_SHARD_LEN_PREFIX + n))
    }
}

/// The packet in a shard.
pub fn shard_packet(shard: &Vec<u8>) -> (out: Option<Vec<u8>>)
    requires
        shard@.len() >= FEC_SHARD_LEN_PREFIX,
    ensures
        match out {
            Some(p) => packet_of(shard@) == Some(p@),
            None => packet_of(shard@) is None,
        },
{
    let n: usize = le16_at(shard[0], shard[1]);
    let total: usize = shard.len();
    if n > total - FEC_SHARD_LEN_PREFIX {
        return None;
    }
    let mut out: Vec<u8> = Vec::with_capacity(n);
    let ghost want = shard@.subrange(FEC_SHARD_LEN_PREFIX as int, FEC_SHARD_LEN_PREFIX + n);
    let mut i: usize = 0;
    while i < n
        invariant
            i <= n,
            total == shard@.len(),
            n + FEC_SHARD_LEN_PREFIX <= total,
            want == shard@.subrange(FEC_SHARD_LEN_PREFIX as int, FEC_SHARD_LEN_PREFIX + n),
            out@ == want.take(i as int),
        decreases n - i,
    {
        out.push(shard[FEC_SHARD_LEN_PREFIX + i]);
        i += 1;
        proof {
            assert(want.take(i as int) =~= want.take(i - 1).push(want[i - 1]));
        }
    }
    proof {
        assert(want.take(n as int) =~= want);
    }
    Some(out)
}

/// Writes a packet into a buffer of zeros.
pub(crate) fn fill_shard(shard: &mut Vec<u8>, pkt: &Vec<u8>)
    requires
        pkt@.len() + FEC_SHARD_LEN_PREFIX <= old(shard)@.len(),
        forall|i: int| 0 <= i < old(shard)@.len() ==> (#[trigger] old(shard)@[i]) == 0,
    ensures
        final(shard)@ == shard_of(pkt@, old(shard)@.len()),
{
    let size: usize = shard.len();
    let n: usize = pkt.len();
    shard.set(0, (n % 256) as u8);
    shard.set(1, (n / 256 % 256) as u8);
    let mut i: usize = 0;
    while i < n
        invariant
            i <= n,
            n == pkt@.len(),
            size == shard@.len(),
            n + FEC_SHARD_LEN_PREFIX <= size,
            shard@[0] == le16(n as nat)[0],
            shard@[1] == le16(n as nat)[1],
            forall|j: int| 0 <= j < i ==> shard@[FEC_SHARD_LEN_PREFIX + j] == #[trigger] pkt@[j],
            forall|j: int| FEC_SHARD_LEN_PREFIX + i <= j < size ==> (#[trigger] shard@[j]) == 0,
        decreases n - i,
    {
        shard.set(FEC_SHARD_LEN_PREFIX + i, pkt[i]);
        i += 1;
    }
    proof {
        let want = shard_of(pkt@, size as nat);
        assert(want.len() == size);
        assert forall|j: int| 0 <= j < size implies shard@[j] == want[j] by {
            if FEC_SHARD_LEN_PREFIX <= j < FEC_SHARD_LEN_PREFIX + n {
                assert(shard@[FEC_SHARD_LEN_PREFIX + (j - FEC_SHARD_LEN_PREFIX)] == pkt@[j
                    - FEC_SHARD_LEN_PREFIX]);
            }
        }
        assert(shard@ =~= want);
    }
}

/// A shard gives its packet back, if the packet's length fits the two bytes.
pub proof fn shard_keeps_packet(pkt: Seq<u8>, size: nat)
    requires
        pkt.len() + FEC_SHARD_LEN_PREFIX <= size,
        pkt.len() <= u16::MAX,
    ensures
        shard_of(pkt, size).len() == size,
        packet_of(shard_of(pkt, size)) == Some(pkt),
{
    let s = shard_of(pkt, size);
    assert(s[0] == (pkt.len() % 256) as u8);
    assert(s[1] == (pkt.len() / 256 % 256) as u8);
    assert(le16_value(s[0], s[1]) == pkt.len());
    assert(s.subrange(FEC_SHARD_LEN_PREFIX as int, FEC_SHARD_LEN_PREFIX + pkt.len()) =~= pkt);
}

/// A frame gives its head and its shard back, if the shard's length fits the two
/// bytes.
pub proof fn frame_keeps_shard(frame_type: u8, h: FrameHead, shard: Seq<u8>)
    requires
        shard.len() <= u16::MAX,
    ensures
        frame(frame_type, h, shard).len() == FEC_COMPACT_HEADER_LEN + shard.len(),
        frame(frame_type, h, shard)[0] == frame_type,
        head_of(frame(frame_type, h, shard)) == h,
        shard_len_of(frame(frame_type, h, shard)) == shard.len(),
        frame(frame_type, h, shard).skip(FEC_COMPACT_HEADER_LEN as int) == shard,
{
    let f = frame(frame_type, h, shard);
    let g = h.group_id;
    assert(f[1] == (g % 256) as u8 && f[2] == (g / 256 % 256) as u8 && f[3] == (g / 65536 % 256)
        as u8 && f[4] == (g / 16777216) as u8);
    assert(g == g % 256 + 256 * (g / 256 % 256) + 65536 * (g / 65536 % 256) + 16777216 * (g
        / 16777216));
    assert(f[8] == (shard.len() % 256) as u8 && f[9] == (shard.len() / 256 % 256) as u8);
    assert(f.skip(FEC_COMPACT_HEADER_LEN as int) =~= shard);
}

} // verus!
