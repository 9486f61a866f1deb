//! The receiver's side of the code: shards are gathered in groups, and lost
//! packets are made again from parity shards.
//!
//! Times are microseconds.

use crate::engine_state;
use crate::engine_state::since;
use crate::fec;
use crate::fec_codec;
use crate::fec_codec::{le16_at, le32_at, rs_reconstruct, shard_packet, FrameHead};
use crate::fec_ratio::{
    FEC_COMPACT_HEADER_LEN, FEC_MAX_TOTAL_SHARDS, FEC_SHARD_LEN_PREFIX, FEC_SHARD_PAYLOAD_SIZE,
};
use crate::table;
use crate::table::{Key, Table};
use vstd::prelude::*;

verus! {

/// How often groups are looked through for old ones.
pub const FEC_DECODER_EVICT_INTERVAL: u64 = 50_000;

/// How long a group waits for shards.
pub const FEC_GROUP_TTL: u64 = 200_000;

/// How many groups wait for shards at most.
pub const FEC_MAX_GROUPS: usize = 256;

/// How many groups are remembered once they are complete.
pub const FEC_COMPLETED_GROUPS_CAP: usize = 128;

/// A group that waits for shards.
pub struct PartialGroup {
    pub data_shards: u8,
    pub parity_shards: u8,
    pub shard_size: usize,
    pub received: Vec<Option<Vec<u8>>>,
    pub received_count: u8,
    pub created_at: u64,
}

/// A group that waits for shards.
#[verifier::ext_equal]
pub ghost struct GroupView {
    pub data: u8,
    pub parity: u8,
    pub size: nat,
    pub received: Seq<Option<Seq<u8>>>,
    pub created_at: u64,
}

impl View for PartialGroup {
    type V = GroupView;

    open spec fn view(&self) -> GroupView {
        GroupView {
            data: self.data_shards,
            parity: self.parity_shards,
            size: self.shard_size as nat,
            received: fec_codec::slots(self.received@),
            created_at: self.created_at,
        }
    }
}

/// How many shards of the group are not there.
pub open spec fn missing_of(g: GroupView) -> nat {
    (g.received.len() - fec_codec::present(g.received, g.received.len())) as nat
}

/// How many shards of all the groups are not there.
pub open spec fn total_missing(m: Map<u32, GroupView>) -> nat
    decreases m.dom().len(),
    when m.dom().finite()
{
    if m.dom().len() == 0 {
        0
    } else {
        let k = m.dom().choose();
        if m.dom().contains(k) {
            missing_of(m[k]) + total_missing(m.remove(k))
        } else {
            0
        }
    }
}

/// Any group can be counted first.
pub proof fn total_missing_split(m: Map<u32, GroupView>, k: u32)
    requires
        m.dom().finite(),
        m.dom().contains(k),
    ensures
        total_missing(m) == missing_of(m[k]) + total_missing(m.remove(k)),
    decreases m.dom().len(),
{
    let c = m.dom().choose();
    assert(m.dom().len() > 0);
    assert(m.dom().contains(c));
    if c != k {
        total_missing_split(m.remove(c), k);
        total_missing_split(m.remove(k), c);
        assert(m.remove(c).remove(k) =~= m.remove(k).remove(c));
    }
}

/// No more shards are there than were counted.
pub proof fn present_at_most(r: Seq<Option<Seq<u8>>>, n: nat)
    ensures
        fec_codec::present(r, n) <= n,
    decreases n,
{
    if n > 0 {
        present_at_most(r, (n - 1) as nat);
    }
}

/// A shard that was not there is there now.
proof fn present_update(r: Seq<Option<Seq<u8>>>, i: int, s: Seq<u8>, n: nat)
    requires
        0 <= i < r.len(),
        n <= r.len(),
        r[i] is None,
    ensures
        fec_codec::present(r.update(i, Some(s)), n) == fec_codec::present(r, n) + if i < n {
            1nat
        } else {
            0nat
        },
    decreases n,
{
    if n > 0 {
        present_update(r, i, s, (n - 1) as nat);
    }
}

/// When all are counted, all are there.
proof fn present_all(r: Seq<Option<Seq<u8>>>, n: nat)
    requires
        fec_codec::present(r, n) == n,
    ensures
        forall|i: int| 0 <= i < n ==> (#[trigger] r[i]) is Some,
    decreases n,
{
    if n > 0 {
        present_at_most(r, (n - 1) as nat);
        present_all(r, (n - 1) as nat);
    }
}

/// The packets in the first `n` shards; a shard that says more than it holds is
/// left out.
pub open spec fn extracted(r: Seq<Option<Seq<u8>>>, n: nat) -> Seq<Seq<u8>>
    decreases n,
{
    if n == 0 {
        Seq::empty()
    } else {
        let rest = extracted(r, (n - 1) as nat);
        if r[n - 1] is Some && fec_codec::packet_of(r[n - 1]->0) is Some {
            rest.push(fec_codec::packet_of(r[n - 1]->0)->0)
        } else {
            rest
        }
    }
}

/// Gathers shards.
pub struct FecDecoder {
    pub frame_type: u8,
    pub groups: Table<u32, PartialGroup>,
    /// The groups that were complete lately: what comes late for them is dropped.
    pub completed_groups: Vec<u32>,
    pub last_evict: u64,
}

/// A decoder.
#[verifier::ext_equal]
pub ghost struct DecoderView {
    pub frame_type: u8,
    pub groups: Map<u32, GroupView>,
    pub completed: Seq<u32>,
    pub last_evict: u64,
}

/// The groups that wait.
pub open spec fn groups_view(m: Map<u32, PartialGroup>) -> Map<u32, GroupView> {
    m.map_values(|g: PartialGroup| g@)
}

impl View for FecDecoder {
    type V = DecoderView;

    open spec fn view(&self) -> DecoderView {
        DecoderView {
            frame_type: self.frame_type,
            groups: groups_view(self.groups@),
            completed: self.completed_groups@,
            last_evict: self.last_evict,
        }
    }
}

/// What came of a shard.
pub struct FecDecodeResult {
    pub recovered: Vec<Vec<u8>>,
    pub invalid: bool,
    /// How many new shards were taken in: one or none.
    pub shards_new: u8,
    /// How many shards are missing of the groups that were closed.
    pub shards_missing: u16,
}

/// What came of a shard.
#[verifier::ext_equal]
pub ghost struct ResultView {
    pub recovered: Seq<Seq<u8>>,
    pub invalid: bool,
    pub shards_new: nat,
    pub shards_missing: nat,
}

impl View for FecDecodeResult {
    type V = ResultView;

    open spec fn view(&self) -> ResultView {
        ResultView {
            recovered: fec_codec::bytes_of(self.recovered@),
            invalid: self.invalid,
            shards_new: self.shards_new as nat,
            shards_missing: self.shards_missing as nat,
        }
    }
}

/// A shard that could not be used.
pub open spec fn refused(missing: nat) -> ResultView {
    ResultView {
        recovered: Seq::empty(),
        invalid: true,
        shards_new: 0,
        shards_missing: missing,
    }
}

/// A shard that was fine.
pub open spec fn fine(recovered: Seq<Seq<u8>>, shards_new: nat, missing: nat) -> ResultView {
    ResultView { recovered, invalid: false, shards_new, shards_missing: missing }
}

/// The group has waited too long.
pub open spec fn too_old(g: GroupView, now: u64) -> bool {
    engine_state::elapsed(now, g.created_at) >= FEC_GROUP_TTL
}

/// The groups that have waited too long.
pub open spec fn old_groups(m: Map<u32, GroupView>, now: u64) -> Map<u32, GroupView> {
    m.restrict(Set::new(|k: u32| m.dom().contains(k) && too_old(m[k], now)))
}

/// The groups that have not waited too long.
pub open spec fn young_groups(m: Map<u32, GroupView>, now: u64) -> Map<u32, GroupView> {
    m.restrict(Set::new(|k: u32| m.dom().contains(k) && !too_old(m[k], now)))
}

/// Old groups are dropped.
pub open spec fn evicted(d: DecoderView, now: u64) -> DecoderView {
    DecoderView { groups: young_groups(d.groups, now), last_evict: now, ..d }
}

/// It is time to look for old groups.
pub open spec fn evict_due(d: DecoderView, now: u64) -> bool {
    engine_state::elapsed(now, d.last_evict) >= FEC_DECODER_EVICT_INTERVAL
}

/// The decoder once old groups were dropped, if it was time for that, and how
/// many shards they missed.
pub open spec fn swept(d: DecoderView, now: u64) -> (DecoderView, nat) {
    if evict_due(d, now) {
        (evicted(d, now), total_missing(old_groups(d.groups, now)))
    } else {
        (d, 0)
    }
}

/// No frame of this kind.
pub open spec fn no_frame(d: DecoderView, raw: Seq<u8>) -> bool {
    raw.len() < FEC_COMPACT_HEADER_LEN || raw[0] != d.frame_type
}

/// What the frame says does not fit together.
pub open spec fn malformed(raw: Seq<u8>) -> bool {
    let h = fec_codec::head_of(raw);
    let total = h.data_shards + h.parity_shards;
    let size = fec_codec::shard_len_of(raw);
    ||| total == 0
    ||| total > FEC_MAX_TOTAL_SHARDS
    ||| h.shard_idx >= total
    ||| raw.len() - FEC_COMPACT_HEADER_LEN < size
    ||| size < FEC_SHARD_LEN_PREFIX
    ||| size > FEC_SHARD_PAYLOAD_SIZE
}

/// The shard in a frame.
pub open spec fn payload_of(raw: Seq<u8>) -> Seq<u8> {
    raw.subrange(
        FEC_COMPACT_HEADER_LEN as int,
        FEC_COMPACT_HEADER_LEN + fec_codec::shard_len_of(raw),
    )
}

/// How many shards are missing of the group `id`, if it waits.
pub open spec fn missing_at(m: Map<u32, GroupView>, id: u32) -> nat {
    if m.dom().contains(id) {
        missing_of(m[id])
    } else {
        0
    }
}

/// No group has waited longer than `id`.
pub open spec fn oldest(m: Map<u32, GroupView>, id: u32) -> bool {
    &&& m.dom().contains(id)
    &&& forall|k: u32| #[trigger] m.dom().contains(k) ==> m[id].created_at <= m[k].created_at
}

/// Where the groups are too many for a new one, one that has waited longest is
/// dropped.
pub open spec fn made_room(
    m: Map<u32, GroupView>,
    id: u32,
    room: Map<u32, GroupView>,
    missing: nat,
) -> bool {
    if m.dom().contains(id) || m.dom().len() < FEC_MAX_GROUPS {
        room == m && missing == 0
    } else {
        exists|k: u32| #[trigger]
            oldest(m, k) && room == m.remove(k) && missing == missing_of(m[k])
    }
}

/// The group of a frame; a new one has no shards.
pub open spec fn group_of(m: Map<u32, GroupView>, raw: Seq<u8>, now: u64) -> GroupView {
    let h = fec_codec::head_of(raw);
    if m.dom().contains(h.group_id) {
        m[h.group_id]
    } else {
        GroupView {
            data: h.data_shards,
            parity: h.parity_shards,
            size: fec_codec::shard_len_of(raw),
            received: Seq::new((h.data_shards + h.parity_shards) as nat, |i: int| None),
            created_at: now,
        }
    }
}

/// The frame is of another shape than its group.
pub open spec fn other_shape(g: GroupView, raw: Seq<u8>) -> bool {
    let h = fec_codec::head_of(raw);
    g.data != h.data_shards || g.parity != h.parity_shards || g.size != fec_codec::shard_len_of(
        raw,
    )
}

/// The group with the shard of the frame.
pub open spec fn with_shard(g: GroupView, raw: Seq<u8>) -> GroupView {
    GroupView {
        received: g.received.update(
            fec_codec::head_of(raw).shard_idx as int,
            Some(payload_of(raw)),
        ),
        ..g
    }
}

/// All data shards of the group are there.
pub open spec fn data_complete(g: GroupView) -> bool {
    fec_codec::present(g.received, g.data as nat) == g.data
}

/// As many shards are there as the group has data shards.
pub open spec fn enough(g: GroupView) -> bool {
    fec_codec::present(g.received, g.received.len()) >= g.data
}

/// A group is complete: it waits no more, and is remembered.
pub open spec fn completed(d: DecoderView, id: u32) -> DecoderView {
    DecoderView {
        groups: d.groups.remove(id),
        completed: (if d.completed.len() >= FEC_COMPLETED_GROUPS_CAP {
            d.completed.skip(1)
        } else {
            d.completed
        }).push(id),
        ..d
    }
}

/// What a frame does that is well formed, after `missing` shards were counted
/// already.
pub open spec fn taken(d: DecoderView, raw: Seq<u8>, now: u64, missing: nat) -> (
    ResultView,
    DecoderView,
) {
    let h = fec_codec::head_of(raw);
    let id = h.group_id;
    let g = group_of(d.groups, raw, now);
    let g1 = with_shard(g, raw);
    if other_shape(g, raw) {
        (
            refused(missing + missing_of(g)),
            DecoderView { groups: d.groups.remove(id), ..d },
        )
    } else if g.received[h.shard_idx as int] is Some {
        (fine(Seq::empty(), 0, missing), d)
    } else if data_complete(g1) {
        (fine(extracted(g1.received, g1.data as nat), 1, missing), completed(d, id))
    } else if enough(g1) {
        (
            fine(
                extracted(
                    fec_codec::rs_rebuilt(g1.data as nat, g1.parity as nat, g1.received),
                    g1.data as nat,
                ),
                1,
                missing + missing_of(g1),
            ),
            completed(d, id),
        )
    } else {
        (
            fine(Seq::empty(), 1, missing),
            DecoderView { groups: d.groups.insert(id, g1), ..d },
        )
    }
}

/// The shards of the group are shards of the packets.
pub open spec fn from_packets(g: GroupView, pkts: Seq<Seq<u8>>) -> bool {
    &&& pkts.len() == g.data
    &&& forall|i: int|
        0 <= i < pkts.len() ==> (#[trigger] pkts[i]).len() + FEC_SHARD_LEN_PREFIX <= g.size
    &&& fec_codec::agrees(g.received, fec::shards_of(pkts, g.size), g.parity as nat)
}

/// The frame closes its group, and packets are made of it.
pub open spec fn closes(m: Map<u32, GroupView>, raw: Seq<u8>, now: u64) -> bool {
    let g = group_of(m, raw, now);
    &&& !other_shape(g, raw)
    &&& g.received[fec_codec::head_of(raw).shard_idx as int] is None
    &&& data_complete(with_shard(g, raw)) || enough(with_shard(g, raw))
}

/// What a frame does that is well formed: room is made, the shard is taken in,
/// and a group that is closed gives the packets back that its shards are of.
pub open spec fn accepted(
    d: DecoderView,
    raw: Seq<u8>,
    now: u64,
    missing: nat,
    out: ResultView,
    d1: DecoderView,
) -> bool {
    exists|room: Map<u32, GroupView>, more: nat|
        {
            &&& #[trigger] made_room(d.groups, fec_codec::head_of(raw).group_id, room, more)
            &&& (out, d1) == taken(
                DecoderView { groups: room, ..d },
                raw,
                now,
                missing + more,
            )
            &&& closes(room, raw, now) ==> forall|pkts: Seq<Seq<u8>>| #[trigger]
                from_packets(with_shard(group_of(room, raw, now), raw), pkts) ==> out.recovered
                    == pkts
        }
}

/// Packets come out of their own shards.
proof fn extracted_packets(r: Seq<Option<Seq<u8>>>, pkts: Seq<Seq<u8>>, size: nat, n: nat)
    requires
        n <= pkts.len(),
        n <= r.len(),
        size <= u16::MAX,
        forall|i: int| 0 <= i < n ==> (#[trigger] r[i]) is Some && r[i]->0 == fec_codec::shard_of(
            pkts[i],
            size,
        ),
        forall|i: int|
            0 <= i < n ==> (#[trigger] pkts[i]).len() + FEC_SHARD_LEN_PREFIX <= size,
    ensures
        extracted(r, n) == pkts.take(n as int),
    decreases n,
{
    if n > 0 {
        extracted_packets(r, pkts, size, (n - 1) as nat);
        let p = pkts[n - 1];
        assert(r[n - 1] is Some);
        fec_codec::shard_keeps_packet(p, size);
        assert(pkts.take(n as int) =~= pkts.take(n - 1).push(p));
    } else {
        assert(pkts.take(0) =~= Seq::<Seq<u8>>::empty());
    }
}

impl PartialGroup {
    pub open spec fn wf(&self) -> bool {
        &&& self.received@.len() == self.data_shards + self.parity_shards
        &&& self.received@.len() <= FEC_MAX_TOTAL_SHARDS
        &&& FEC_SHARD_LEN_PREFIX <= self.shard_size <= FEC_SHARD_PAYLOAD_SIZE
        &&& fec_codec::slots_sized(fec_codec::slots(self.received@), self.shard_size as nat)
        &&& self.received_count == fec_codec::present(
            fec_codec::slots(self.received@),
            self.received@.len(),
        )
    }

    /// How many shards are missing.
    fn shards_missing(&self) -> (n: u16)
        requires
            self.wf(),
        ensures
            n == missing_of(self@),
            n <= FEC_MAX_TOTAL_SHARDS,
    {
        proof {
            present_at_most(fec_codec::slots(self.received@), self.received@.len());
        }
        self.received.len() as u16 - self.received_count as u16
    }

    /// Whether all data shards are there.
    fn has_all_data(&self) -> (b: bool)
        requires
            self.wf(),
        ensures
            b == data_complete(self@),
    {
        let n: usize = self.data_shards as usize;
        let ghost r = fec_codec::slots(self.received@);
        let mut i: usize = 0;
        let mut count: usize = 0;
        while i < n
            invariant
                i <= n,
                n <= self.received@.len(),
                r == fec_codec::slots(self.received@),
                count == fec_codec::present(r, i as nat),
                count <= i,
            decreases n - i,
        {
            if self.received[i].is_some() {
                count += 1;
            }
            i += 1;
        }
        count == n
    }

    /// The packets in the data shards.
    fn packets(&self) -> (out: Vec<Vec<u8>>)
        requires
            self.data_shards <= self.received@.len(),
            forall|i: int|
                0 <= i < self.data_shards && (#[trigger] self.received@[i]) is Some
                    ==> self.received@[i]->0@.len() >= FEC_SHARD_LEN_PREFIX,
        ensures
            fec_codec::bytes_of(out@) == extracted(
                fec_codec::slots(self.received@),
                self.data_shards as nat,
            ),
    {
        let n: usize = self.data_shards as usize;
        let ghost r = fec_codec::slots(self.received@);
        let mut out: Vec<Vec<u8>> = Vec::new();
        let mut i: usize = 0;
        proof {
            assert(fec_codec::bytes_of(out@) =~= Seq::<Seq<u8>>::empty());
        }
        while i < n
            invariant
                i <= n,
                n == self.data_shards,
                n <= self.received@.len(),
                r == fec_codec::slots(self.received@),
                forall|j: int|
                    0 <= j < n && (#[trigger] self.received@[j]) is Some
                        ==> self.received@[j]->0@.len() >= FEC_SHARD_LEN_PREFIX,
                fec_codec::bytes_of(out@) == extracted(r, i as nat),
            decreases n - i,
        {
            let ghost before = fec_codec::bytes_of(out@);
            if let Some(s) = &self.received[i] {
                proof {
                    assert(r[i as int] == Some(s@));
                }
                if let Some(p) = shard_packet(s) {
                    out.push(p);
                    proof {
                        assert(fec_codec::bytes_of(out@) =~= before.push(p@));
                    }
                }
            }
            i += 1;
        }
        out
    }

    /// Fills in the data shards that are missing, and gives their packets.
    fn rebuild(self) -> (out: Vec<Vec<u8>>)
        requires
            self.wf(),
            enough(self@),
            !data_complete(self@),
        ensures
            fec_codec::bytes_of(out@) == extracted(
                fec_codec::rs_rebuilt(
                    self.data_shards as nat,
                    self.parity_shards as nat,
                    fec_codec::slots(self.received@),
                ),
                self.data_shards as nat,
            ),
            forall|pkts: Seq<Seq<u8>>| #[trigger]
                from_packets(self@, pkts) ==> fec_codec::bytes_of(out@) == pkts,
    {
        let ghost v0 = self@;
        let ghost r0 = fec_codec::slots(self.received@);
        let data: usize = self.data_shards as usize;
        let parity: usize = self.parity_shards as usize;
        proof {
            if parity == 0 {
                present_at_most(r0, data as nat);
                assert(false);
            }
            if data == 0 {
                assert(false);
            }
            assert(fec_codec::rebuildable(data as nat, parity as nat, r0)) by {
                assert(fec_codec::slots_sized(r0, self.shard_size as nat));
            }
        }
        let mut g = self;
        let ok: bool = rs_reconstruct(data, parity, &mut g.received);
        let ghost r1 = fec_codec::slots(g.received@);
        proof {
            assert(ok);
            assert(fec_codec::slots_sized(r1, v0.size));
            assert forall|i: int| 0 <= i < data && (#[trigger] g.received@[i]) is Some implies
                g.received@[i]->0@.len() >= FEC_SHARD_LEN_PREFIX by {
                assert(r1[i] is Some && r1[i]->0.len() == v0.size);
            }
        }
        let out = g.packets();
        proof {
            assert forall|pkts: Seq<Seq<u8>>| #[trigger] from_packets(v0, pkts) implies
                fec_codec::bytes_of(out@) == pkts by {
                let group = fec::shards_of(pkts, v0.size);
                assert(fec_codec::agrees(r0, group, parity as nat));
                assert forall|i: int| 0 <= i < group.len() implies (#[trigger] group[i]).len()
                    == v0.size by {
                    fec_codec::shard_keeps_packet(pkts[i], v0.size);
                }
                assert(fec_codec::sized(group, v0.size));
                assert forall|i: int| 0 <= i < data implies (#[trigger] r1[i]) is Some && r1[i]->0
                    == fec_codec::shard_of(pkts[i], v0.size) by {
                    assert(r1[i]->0 == group[i]);
                }
                extracted_packets(r1, pkts, v0.size, data as nat);
                assert(pkts.take(data as int) =~= pkts);
            }
        }
        out
    }
}

impl FecDecodeResult {
    fn invalid_with_missing(shards_missing: u16) -> (out: Self)
        ensures
            out@ == refused(shards_missing as nat),
    {
        let recovered: Vec<Vec<u8>> = Vec::new();
        proof {
            assert(fec_codec::bytes_of(recovered@) =~= Seq::<Seq<u8>>::empty());
        }
        FecDecodeResult { recovered, invalid: true, shards_new: 0, shards_missing }
    }

    fn ok(recovered: Vec<Vec<u8>>, shards_new: u8, shards_missing: u16) -> (out: Self)
        ensures
            out@ == fine(
                fec_codec::bytes_of(recovered@),
                shards_new as nat,
                shards_missing as nat,
            ),
    {
        FecDecodeResult { recovered, invalid: false, shards_new, shards_missing }
    }

    /// Nothing was recovered.
    fn nothing(shards_new: u8, shards_missing: u16) -> (out: Self)
        ensures
            out@ == fine(Seq::empty(), shards_new as nat, shards_missing as nat),
    {
        let recovered: Vec<Vec<u8>> = Vec::new();
        proof {
            assert(fec_codec::bytes_of(recovered@) =~= Seq::<Seq<u8>>::empty());
        }
        Self::ok(recovered, shards_new, shards_missing)
    }
}

/// The shards that are missing of the groups among the first `n` entries that
/// have waited too long.
spec fn old_sum(s: Seq<(u32, PartialGroup)>, now: u64, n: nat) -> nat
    decreases n,
{
    if n == 0 {
        0
    } else {
        old_sum(s, now, (n - 1) as nat) + if too_old(s[n - 1].1@, now) {
            missing_of(s[n - 1].1@)
        } else {
            0
        }
    }
}

/// The count over the entries is the count over the groups.
proof fn old_sum_total(s: Seq<(u32, PartialGroup)>, now: u64, n: nat)
    requires
        table::distinct_keys(s),
        n <= s.len(),
    ensures
        ({
            let m = old_groups(groups_view(table::map_of(s.take(n as int))), now);
            m.dom().finite() && old_sum(s, now, n) == total_missing(m)
        }),
    decreases n,
{
    if n == 0 {
        let t = s.take(0);
        table::map_of_len(t);
        let m = old_groups(groups_view(table::map_of(t)), now);
        assert forall|k: u32| !table::map_of(t).dom().contains(k) by {
            if table::has_key(t, k) {
                let i = choose|i: int| table::key_at(t, k, i);
                assert(false);
            }
        }
        assert(m.dom() =~= Set::empty());
    } else {
        old_sum_total(s, now, (n - 1) as nat);
        let t = s.take(n - 1);
        let e = s[n - 1];
        let k = e.0;
        assert(s.take(n as int) =~= t.push(e));
        assert(table::distinct_keys(t));
        assert(!table::has_key(t, k)) by {
            if table::has_key(t, k) {
                let i = choose|i: int| table::key_at(t, k, i);
                assert(s[i].0.id() != s[n - 1].0.id());
            }
        }
        table::map_of_push(t, k, e.1);
        let m0 = old_groups(groups_view(table::map_of(t)), now);
        let m1 = old_groups(groups_view(table::map_of(t.push(e))), now);
        assert(!m0.dom().contains(k));
        if too_old(e.1@, now) {
            assert(m1 =~= m0.insert(k, e.1@));
            total_missing_split(m1, k);
            assert(m1.remove(k) =~= m0);
        } else {
            assert(m1 =~= m0);
        }
    }
}

/// What comes of a frame. Once in a while, groups that have waited too long are
/// dropped first.
pub open spec fn pushed(
    pre: DecoderView,
    raw: Seq<u8>,
    now: u64,
    out: ResultView,
    post: DecoderView,
) -> bool {
    let (d, missing) = swept(pre, now);
    let id = fec_codec::head_of(raw).group_id;
    if no_frame(d, raw) {
        out == refused(missing) && post == d
    } else if d.completed.contains(id) {
        out == fine(Seq::empty(), 0, missing) && post == d
    } else if malformed(raw) {
        out == refused(missing + missing_at(d.groups, id)) && post == (DecoderView {
            groups: d.groups.remove(id),
            ..d
        })
    } else {
        accepted(d, raw, now, missing, out, post)
    }
}

impl FecDecoder {
    pub open spec fn wf(&self) -> bool {
        &&& self.groups.wf()
        &&& self.groups.entries@.len() <= FEC_MAX_GROUPS
        &&& forall|k: u32| #[trigger] self.groups@.dom().contains(k) ==> self.groups@[k].wf()
        &&& self.completed_groups@.len() <= FEC_COMPLETED_GROUPS_CAP
    }

    pub fn new(frame_type: u8, now: u64) -> (out: Self)
        ensures
            out.wf(),
            out@ == (DecoderView {
                frame_type,
                groups: Map::empty(),
                completed: Seq::empty(),
                last_evict: now,
            }),
    {
        let out = FecDecoder {
            frame_type,
            groups: Table::new(),
            completed_groups: Vec::new(),
            last_evict: now,
        };
        proof {
            assert(out@.groups =~= Map::<u32, GroupView>::empty());
        }
        out
    }

    pub fn is_empty(&self) -> (b: bool)
        requires
            self.wf(),
        ensures
            b == (self@.groups.dom().len() == 0),
    {
        proof {
            assert(self@.groups.dom() =~= self.groups@.dom());
        }
        self.groups.is_empty()
    }

    pub fn group_count(&self) -> (n: usize)
        requires
            self.wf(),
        ensures
            n == self@.groups.dom().len(),
    {
        proof {
            assert(self@.groups.dom() =~= self.groups@.dom());
        }
        self.groups.len()
    }

    /// Drops the groups that have waited too long; tells how many shards they
    /// missed.
    fn evict_at(&mut self, now: u64) -> (missing: u16)
        requires
            old(self).wf(),
        ensures
            final(self).wf(),
            final(self)@ == (DecoderView {
                groups: young_groups(old(self)@.groups, now),
                ..old(self)@
            }),
            missing == total_missing(old_groups(old(self)@.groups, now)),
            missing <= FEC_MAX_TOTAL_SHARDS * FEC_MAX_GROUPS,
    {
        let ghost v0 = self@;
        let ghost m0 = self.groups@;
        let ghost s = self.groups.entries@;
        let mut missing: u16 = 0;
        let mut i: usize = 0;
        while i < self.groups.entries.len()
            invariant
                *self == *old(self),
                self.wf(),
                s == self.groups.entries@,
                i <= s.len(),
                missing == old_sum(s, now, i as nat),
                missing <= FEC_MAX_TOTAL_SHARDS * i,
            decreases s.len() - i,
        {
            let g = &self.groups.entries[i].1;
            proof {
                table::map_of_at(s, i as int);
                assert(self.groups@.dom().contains(s[i as int].0));
                assert(g.wf());
                present_at_most(g@.received, g@.received.len());
            }
            if since(now, g.created_at) >= FEC_GROUP_TTL {
                missing = missing.saturating_add(g.shards_missing());
            }
            i += 1;
        }
        let ghost p = |e: (u32, PartialGroup)| !too_old(e.1@, now);
        let f = |k: &u32, v: &PartialGroup| -> (b: bool)
            ensures
                b == !too_old(v@, now),
            { since(now, v.created_at) < FEC_GROUP_TTL };
        self.groups.retain_where(f, Ghost(p));
        proof {
            assert(s.take(s.len() as int) =~= s);
            old_sum_total(s, now, s.len());
            table::map_of_filter(s, p);
            keeps_young(s, self.groups.entries@, now);
            assert(self@.groups =~= young_groups(v0.groups, now));
            assert forall|k: u32| #[trigger] self.groups@.dom().contains(k) implies self.groups@[k].wf() by {
                assert(m0.dom().contains(k));
                assert(self.groups@[k] == m0[k]);
            }
            filter_shorter(s, p);
        }
        missing
    }

    /// Drops the groups that have waited too long; tells how many shards they
    /// missed.
    pub fn evict_expired(&mut self, now: u64) -> (missing: u16)
        requires
            old(self).wf(),
        ensures
            final(self).wf(),
            final(self)@ == evicted(old(self)@, now),
            missing == total_missing(old_groups(old(self)@.groups, now)),
            missing <= FEC_MAX_TOTAL_SHARDS * FEC_MAX_GROUPS,
    {
        let missing: u16 = self.evict_at(now);
        self.last_evict = now;
        missing
    }

    /// Remembers that a group is complete.
    fn note_completed(&mut self, group_id: u32)
        requires
            old(self).wf(),
        ensures
            final(self).wf(),
            final(self)@ == (DecoderView {
                groups: old(self)@.groups,
                ..completed(old(self)@, group_id)
            }),
    {
        let ghost c0 = self.completed_groups@;
        if self.completed_groups.len() >= FEC_COMPLETED_GROUPS_CAP {
            let _ = self.completed_groups.remove(0);
            proof {
                assert(self.completed_groups@ =~= c0.skip(1));
            }
        }
        self.completed_groups.push(group_id);
    }

    /// Drops a group that has waited longest.
    fn evict_oldest_group(&mut self) -> (missing: u16)
        requires
            old(self).wf(),
            old(self)@.groups.dom().len() > 0,
        ensures
            final(self).wf(),
            missing <= FEC_MAX_TOTAL_SHARDS,
            final(self).groups.entries@.len() < FEC_MAX_GROUPS,
            exists|k: u32| #[trigger]
                oldest(old(self)@.groups, k) && final(self)@ == (DecoderView {
                    groups: old(self)@.groups.remove(k),
                    ..old(self)@
                }) && missing == missing_of(old(self)@.groups[k]),
    {
        let ghost v0 = self@;
        let ghost m0 = self.groups@;
        let ghost s = self.groups.entries@;
        proof {
            assert(self@.groups.dom() =~= self.groups@.dom());
            table::map_of_len(s);
        }
        let mut at: usize = 0;
        let mut i: usize = 1;
        while i < self.groups.entries.len()
            invariant
                self.wf(),
                s == self.groups.entries@,
                1 <= i <= s.len(),
                at < i,
                forall|j: int|
                    0 <= j < i ==> s[at as int].1.created_at <= (#[trigger] s[j]).1.created_at,
            decreases s.len() - i,
        {
            if self.groups.entries[i].1.created_at < self.groups.entries[at].1.created_at {
                at = i;
            }
            i += 1;
        }
        let id: u32 = self.groups.entries[at].0;
        proof {
            table::map_of_at(s, at as int);
            assert(m0.dom().contains(id));
            assert(v0.groups[id] == s[at as int].1@);
            assert forall|k: u32| #[trigger] v0.groups.dom().contains(k) implies
                v0.groups[id].created_at <= v0.groups[k].created_at by {
                let j = choose|j: int| table::key_at(s, k, j);
                table::map_of_at(s, j);
                assert(s[at as int].1.created_at <= s[j].1.created_at);
            }
            assert(oldest(v0.groups, id));
        }
        let missing: u16 = self.groups.entries[at].1.shards_missing();
        let _ = self.groups.remove(&id);
        proof {
            assert(self@.groups =~= v0.groups.remove(id));
            table::map_of_len(self.groups.entries@);
            assert(self.groups@.dom() =~= m0.dom().remove(id));
            assert(self@ =~= (DecoderView { groups: v0.groups.remove(id), ..v0 }));
        }
        missing
    }

    /// Whether a group was complete lately.
    fn is_completed(&self, group_id: u32) -> (b: bool)
        ensures
            b == self@.completed.contains(group_id),
    {
        let mut i: usize = 0;
        while i < self.completed_groups.len()
            invariant
                i <= self.completed_groups@.len(),
                forall|j: int|
                    0 <= j < i ==> (#[trigger] self.completed_groups@[j]) != group_id,
            decreases self.completed_groups@.len() - i,
        {
            if self.completed_groups[i] == group_id {
                assert(self@.completed[i as int] == group_id);
                return true;
            }
            i += 1;
        }
        false
    }

    /// Drops a group; tells how many shards it missed.
    fn drop_group(&mut self, group_id: u32) -> (missing: u16)
        requires
            old(self).wf(),
        ensures
            final(self).wf(),
            final(self)@ == (DecoderView {
                groups: old(self)@.groups.remove(group_id),
                ..old(self)@
            }),
            missing == missing_at(old(self)@.groups, group_id),
            missing <= FEC_MAX_TOTAL_SHARDS,
    {
        let ghost v0 = self@;
        let ghost m0 = self.groups@;
        let ghost s0 = self.groups.entries@;
        let out = self.groups.remove(&group_id);
        proof {
            assert(self@.groups =~= v0.groups.remove(group_id));
            table::map_of_len(s0);
            table::map_of_len(self.groups.entries@);
            assert(self.groups@.dom() =~= m0.dom().remove(group_id));
        }
        match out {
            Some(g) => g.shards_missing(),
            None => 0,
        }
    }

    /// Takes a frame in.
    pub fn push_shard(&mut self, raw: &[u8], now: u64) -> (out: FecDecodeResult)
        requires
            old(self).wf(),
        ensures
            final(self).wf(),
            pushed(old(self)@, raw@, now, out@, final(self)@),
    {
        let mut missing: u16 = 0;
        if since(now, self.last_evict) >= FEC_DECODER_EVICT_INTERVAL {
            missing = self.evict_expired(now);
        }
        let ghost d = self@;
        if raw.len() < FEC_COMPACT_HEADER_LEN || raw[0] != self.frame_type {
            return FecDecodeResult::invalid_with_missing(missing);
        }
        let group_id: u32 = le32_at(raw[1], raw[2], raw[3], raw[4]);
        if self.is_completed(group_id) {
            return FecDecodeResult::nothing(0, missing);
        }
        let h = FrameHead {
            group_id,
            shard_idx: raw[5],
            data_shards: raw[6],
            parity_shards: raw[7],
        };
        let size: usize = le16_at(raw[8], raw[9]);
        let total: usize = h.data_shards as usize + h.parity_shards as usize;
        if total == 0 || total > FEC_MAX_TOTAL_SHARDS || h.shard_idx as usize >= total
            || raw.len() - FEC_COMPACT_HEADER_LEN < size || size < FEC_SHARD_LEN_PREFIX || size
            > FEC_SHARD_PAYLOAD_SIZE {
            let more: u16 = self.drop_group(group_id);
            return FecDecodeResult::invalid_with_missing(missing.saturating_add(more));
        }
        if !self.groups.contains_key(&group_id) && self.groups.len() >= FEC_MAX_GROUPS {
            proof {
                assert(self@.groups.dom() =~= self.groups@.dom());
            }
            let more: u16 = self.evict_oldest_group();
            let ghost room = self@.groups;
            proof {
                assert(made_room(d.groups, group_id, room, more as nat));
                assert(self@ =~= (DecoderView { groups: room, ..d }));
            }
            self.take_shard(raw, h, size, missing + more, now)
        } else {
            proof {
                assert(self@.groups.dom() =~= self.groups@.dom());
                table::map_of_len(self.groups.entries@);
                assert(made_room(d.groups, group_id, d.groups, 0));
                assert(self@ =~= (DecoderView { groups: d.groups, ..d }));
            }
            self.take_shard(raw, h, size, missing, now)
        }
    }

    /// Takes the shard of a frame that is well formed in its group.
    fn take_shard(
        &mut self,
        raw: &[u8],
        h: FrameHead,
        size: usize,
        missing: u16,
        now: u64,
    ) -> (out: FecDecodeResult)
        requires
            old(self).wf(),
            old(self)@.groups.dom().contains(h.group_id) || old(self).groups.entries@.len()
                < FEC_MAX_GROUPS,
            raw@.len() >= FEC_COMPACT_HEADER_LEN,
            !malformed(raw@),
            h == fec_codec::head_of(raw@),
            size == fec_codec::shard_len_of(raw@),
            missing + FEC_MAX_TOTAL_SHARDS <= u16::MAX,
        ensures
            final(self).wf(),
            (out@, final(self)@) == taken(old(self)@, raw@, now, missing as nat),
            closes(old(self)@.groups, raw@, now) ==> forall|pkts: Seq<Seq<u8>>| #[trigger]
                from_packets(with_shard(group_of(old(self)@.groups, raw@, now), raw@), pkts)
                    ==> out@.recovered == pkts,
    {
        let ghost v0 = self@;
        let ghost m0 = self.groups@;
        let ghost s0 = self.groups.entries@;
        let id: u32 = h.group_id;
        let idx: usize = h.shard_idx as usize;
        proof {
            assert(self@.groups.dom() =~= self.groups@.dom());
        }
        if let Some(g) = self.groups.get(&id) {
            if g.data_shards != h.data_shards || g.parity_shards != h.parity_shards || g.shard_size
                != size {
                let more: u16 = self.drop_group(id);
                return FecDecodeResult::invalid_with_missing(missing + more);
            }
            if g.received[idx].is_some() {
                return FecDecodeResult::nothing(0, missing);
            }
        }
        let mut g = match self.groups.remove(&id) {
            Some(g) => g,
            None => new_group(h, size, now),
        };
        let ghost g0 = g@;
        proof {
            assert(g0 == group_of(v0.groups, raw@, now));
            table::map_of_len(s0);
            table::map_of_len(self.groups.entries@);
            assert(self.groups@.dom() =~= m0.dom().remove(id));
            assert(self@.groups =~= v0.groups.remove(id));
        }
        let payload = copy_bytes(raw, size);
        proof {
            present_update(g0.received, idx as int, payload@, g0.received.len());
            present_at_most(g0.received.update(idx as int, Some(payload@)), g0.received.len());
        }
        g.received.set(idx, Some(payload));
        g.received_count = g.received_count.saturating_add(1);
        proof {
            assert(g@.received =~= g0.received.update(idx as int, Some(payload@)));
            assert(g@ =~= with_shard(g0, raw@));
            assert(g.wf());
        }
        let ghost g1 = g@;
        if g.has_all_data() {
            proof {
                assert forall|i: int| 0 <= i < g.data_shards && (#[trigger] g.received@[i]) is Some implies
                    g.received@[i]->0@.len() >= FEC_SHARD_LEN_PREFIX by {
                    assert(g1.received[i] is Some);
                }
            }
            let recovered = g.packets();
            self.note_completed(id);
            proof {
                assert(self@ =~= completed(v0, id));
                present_all(g1.received, g1.data as nat);
                assert forall|pkts: Seq<Seq<u8>>| #[trigger] from_packets(g1, pkts) implies
                    fec_codec::bytes_of(recovered@) == pkts by {
                    let group = fec::shards_of(pkts, g1.size);
                    assert forall|i: int| 0 <= i < g1.data implies (#[trigger] g1.received[i])
                        is Some && g1.received[i]->0 == fec_codec::shard_of(pkts[i], g1.size) by {
                        assert(fec_codec::whole(group, g1.parity as nat)[i] == group[i]);
                    }
                    extracted_packets(g1.received, pkts, g1.size, g1.data as nat);
                    assert(pkts.take(g1.data as int) =~= pkts);
                }
            }
            return FecDecodeResult::ok(recovered, 1, missing);
        }
        if g.received_count >= g.data_shards {
            let more: u16 = g.shards_missing();
            let recovered = g.rebuild();
            self.note_completed(id);
            proof {
                assert(self@ =~= completed(v0, id));
            }
            return FecDecodeResult::ok(recovered, 1, missing + more);
        }
        self.groups.insert(id, g);
        proof {
            assert(self@.groups =~= v0.groups.insert(id, g1));
            assert(self@ =~= (DecoderView { groups: v0.groups.insert(id, g1), ..v0 }));
        }
        FecDecodeResult::nothing(1, missing)
    }
}

/// A group without shards.
fn new_group(h: FrameHead, size: usize, now: u64) -> (g: PartialGroup)
    requires
        h.data_shards + h.parity_shards <= FEC_MAX_TOTAL_SHARDS,
        FEC_SHARD_LEN_PREFIX <= size <= FEC_SHARD_PAYLOAD_SIZE,
    ensures
        g.wf(),
        g@ == (GroupView {
            data: h.data_shards,
            parity: h.parity_shards,
            size: size as nat,
            received: Seq::new((h.data_shards + h.parity_shards) as nat, |i: int| None),
            created_at: now,
        }),
{
    let total: usize = h.data_shards as usize + h.parity_shards as usize;
    let mut received: Vec<Option<Vec<u8>>> = Vec::new();
    while received.len() < total
        invariant
            received@.len() <= total,
            forall|i: int| 0 <= i < received@.len() ==> (#[trigger] received@[i]) is None,
            fec_codec::present(fec_codec::slots(received@), received@.len()) == 0,
        decreases total - received@.len(),
    {
        let ghost before = fec_codec::slots(received@);
        received.push(None);
        proof {
            let after = fec_codec::slots(received@);
            assert(after.len() == before.len() + 1);
            present_same(before, after, before.len());
        }
    }
    let g = PartialGroup {
        data_shards: h.data_shards,
        parity_shards: h.parity_shards,
        shard_size: size,
        received,
        received_count: 0,
        created_at: now,
    };
    proof {
        assert(g@.received =~= Seq::new(total as nat, |i: int| None));
    }
    g
}

/// The count of the first `n` depends on them alone.
proof fn present_same(a: Seq<Option<Seq<u8>>>, b: Seq<Option<Seq<u8>>>, n: nat)
    requires
        forall|i: int| 0 <= i < n ==> (#[trigger] a[i]) == b[i],
    ensures
        fec_codec::present(a, n) == fec_codec::present(b, n),
    decreases n,
{
    if n > 0 {
        present_same(a, b, (n - 1) as nat);
    }
}

/// The bytes of the shard in a frame.
fn copy_bytes(raw: &[u8], size: usize) -> (out: Vec<u8>)
    requires
        raw@.len() >= FEC_COMPACT_HEADER_LEN + size,
        size == fec_codec::shard_len_of(raw@),
    ensures
        out@ == payload_of(raw@),
{
    let total: usize = raw.len();
    let ghost want = payload_of(raw@);
    let mut out: Vec<u8> = Vec::with_capacity(size);
    let mut i: usize = 0;
    while i < size
        invariant
            i <= size,
            total == raw@.len(),
            total >= FEC_COMPACT_HEADER_LEN + size,
            size == fec_codec::shard_len_of(raw@),
            want == payload_of(raw@),
            out@ == want.take(i as int),
        decreases size - i,
    {
        out.push(raw[FEC_COMPACT_HEADER_LEN + i]);
        i += 1;
        proof {
            assert(want.take(i as int) =~= want.take(i - 1).push(want[i - 1]));
        }
    }
    proof {
        assert(want.take(size as int) =~= want);
    }
    out
}

/// Keeping the young entries keeps the young groups.
proof fn keeps_young(s: Seq<(u32, PartialGroup)>, t: Seq<(u32, PartialGroup)>, now: u64)
    requires
        table::distinct_keys(s),
        t == s.filter(|e: (u32, PartialGroup)| !too_old(e.1@, now)),
    ensures
        groups_view(table::map_of(t)) == young_groups(groups_view(table::map_of(s)), now),
        forall|k: u32| #[trigger]
            table::map_of(t).dom().contains(k) ==> table::map_of(s).dom().contains(k)
                && table::map_of(t)[k] == table::map_of(s)[k],
{
    let p = |e: (u32, PartialGroup)| !too_old(e.1@, now);
    table::map_of_filter(s, p);
    let a = groups_view(table::map_of(t));
    let b = young_groups(groups_view(table::map_of(s)), now);
    assert forall|k: u32| a.dom().contains(k) <==> b.dom().contains(k) by {
        if a.dom().contains(k) {
            assert(table::has_key(s.filter(p), k));
            let i = choose|i: int| #[trigger] table::key_at(s, k, i) && p(s[i]);
            table::map_of_at(s, i);
        }
        if b.dom().contains(k) {
            let i = choose|i: int| table::key_at(s, k, i);
            table::map_of_at(s, i);
            assert(table::key_at(s, k, i) && p(s[i]));
            assert(table::has_key(s.filter(p), k));
        }
    }
    assert(a =~= b);
}

/// Entries that are kept are no more than there were.
proof fn filter_shorter<A>(s: Seq<A>, p: spec_fn(A) -> bool)
    ensures
        s.filter(p).len() <= s.len(),
    decreases s.len(),
{
    reveal(Seq::filter);
    if s.len() > 0 {
        filter_shorter(s.drop_last(), p);
    }
}

/// A frame of a group brings the shard that stands in its place.
pub proof fn frame_brings_shard(e: fec::EncoderView, parity: nat, i: int)
    requires
        0 <= i < e.pending.len() + parity,
        e.pending.len() + parity <= FEC_MAX_TOTAL_SHARDS,
        FEC_SHARD_LEN_PREFIX <= e.shard <= FEC_SHARD_PAYLOAD_SIZE,
        fec_codec::sized(
            fec::group_frames(e, parity),
            (FEC_COMPACT_HEADER_LEN + e.shard) as nat,
        ),
    ensures
        ({
            let raw = fec::group_frames(e, parity)[i];
            let h = fec_codec::head_of(raw);
            &&& raw[0] == e.frame_type
            &&& !malformed(raw)
            &&& h.group_id == e.salt ^ e.seq
            &&& h.shard_idx == i
            &&& h.data_shards == e.pending.len()
            &&& h.parity_shards == parity
            &&& fec_codec::shard_len_of(raw) == e.shard
            &&& payload_of(raw) == fec_codec::whole(
                fec::shards_of(e.pending, e.shard as nat),
                parity,
            )[i]
        }),
{
    let n = e.pending.len();
    let all = fec_codec::whole(fec::shards_of(e.pending, e.shard as nat), parity);
    let h = FrameHead {
        group_id: e.salt ^ e.seq,
        shard_idx: i as u8,
        data_shards: n as u8,
        parity_shards: parity as u8,
    };
    let raw = fec::group_frames(e, parity)[i];
    assert(raw == fec_codec::frame(e.frame_type, h, all[i]));
    assert(raw.len() == FEC_COMPACT_HEADER_LEN + e.shard);
    assert(fec_codec::head_bytes(e.frame_type, h, all[i].len()).len() == FEC_COMPACT_HEADER_LEN);
    assert(all[i].len() == e.shard);
    fec_codec::frame_keeps_shard(e.frame_type, h, all[i]);
    assert(payload_of(raw) =~= raw.skip(FEC_COMPACT_HEADER_LEN as int));
}

/// A group that holds shards of the frames that an encoder made of packets, and
/// no others, is of these packets: so whichever of the frames come, once there
/// are enough of them, the packets come back.
pub proof fn shards_of_frames_give_packets(e: fec::EncoderView, parity: nat, g: GroupView)
    requires
        e.pending.len() + parity <= FEC_MAX_TOTAL_SHARDS,
        FEC_SHARD_LEN_PREFIX <= e.shard <= FEC_SHARD_PAYLOAD_SIZE,
        fec_codec::sized(
            fec::group_frames(e, parity),
            (FEC_COMPACT_HEADER_LEN + e.shard) as nat,
        ),
        forall|i: int|
            0 <= i < e.pending.len() ==> (#[trigger] e.pending[i]).len() + FEC_SHARD_LEN_PREFIX
                <= e.shard,
        g.data == e.pending.len(),
        g.parity == parity,
        g.size == e.shard,
        g.received.len() == e.pending.len() + parity,
        forall|i: int|
            0 <= i < g.received.len() && (#[trigger] g.received[i]) is Some ==> g.received[i]->0
                == payload_of(fec::group_frames(e, parity)[i]),
    ensures
        from_packets(g, e.pending),
{
    assert forall|i: int| 0 <= i < g.received.len() && (#[trigger] g.received[i]) is Some implies
        g.received[i]->0 == fec_codec::whole(
        fec::shards_of(e.pending, e.shard as nat),
        parity,
    )[i] by {
        frame_brings_shard(e, parity, i);
    }
}

/// More shards are there in all than among the first ones.
proof fn present_grows(r: Seq<Option<Seq<u8>>>, m: nat, n: nat)
    requires
        m <= n,
    ensures
        fec_codec::present(r, m) <= fec_codec::present(r, n),
    decreases n,
{
    if m < n {
        present_grows(r, m, (n - 1) as nat);
    }
}

proof fn present_of_none(r: Seq<Option<Seq<u8>>>, n: nat)
    requires
        forall|i: int| 0 <= i < n ==> (#[trigger] r[i]) is None,
    ensures
        fec_codec::present(r, n) == 0,
    decreases n,
{
    if n > 0 {
        present_of_none(r, (n - 1) as nat);
    }
}

/// The frames of a group as an encoder makes them, of packets that fit their shards.
pub open spec fn sound_group(e: fec::EncoderView, parity: nat) -> bool {
    &&& 1 <= e.pending.len()
    &&& e.pending.len() + parity <= FEC_MAX_TOTAL_SHARDS
    &&& FEC_SHARD_LEN_PREFIX <= e.shard <= FEC_SHARD_PAYLOAD_SIZE
    &&& fec_codec::sized(fec::group_frames(e, parity), (FEC_COMPACT_HEADER_LEN + e.shard) as nat)
    &&& forall|i: int|
        0 <= i < e.pending.len() ==> (#[trigger] e.pending[i]).len() + FEC_SHARD_LEN_PREFIX
            <= e.shard
}

/// The group holds the shards of those frames whose places are in `got`, since `t0`.
spec fn holds_shards(
    g: GroupView,
    e: fec::EncoderView,
    parity: nat,
    got: Seq<int>,
    t0: u64,
) -> bool {
    &&& g.data == e.pending.len()
    &&& g.parity == parity
    &&& g.size == e.shard
    &&& g.received.len() == e.pending.len() + parity
    &&& g.created_at == t0
    &&& fec_codec::present(g.received, g.received.len()) == got.len()
    &&& forall|i: int|
        0 <= i < g.received.len() ==> ((#[trigger] g.received[i]) is Some <==> got.contains(i))
    &&& forall|i: int|
        0 <= i < g.received.len() && (#[trigger] g.received[i]) is Some ==> g.received[i]->0
            == payload_of(fec::group_frames(e, parity)[i])
}

/// What one more frame of a group does.
proof fn one_more_frame(
    e: fec::EncoderView,
    parity: nat,
    got: Seq<int>,
    i: int,
    d: DecoderView,
    now: u64,
    t0: u64,
    out: ResultView,
    d1: DecoderView,
)
    requires
        sound_group(e, parity),
        0 <= i < e.pending.len() + parity,
        !got.contains(i),
        got.len() < e.pending.len(),
        d.frame_type == e.frame_type,
        !d.completed.contains(e.salt ^ e.seq),
        got.len() == 0 ==> !d.groups.dom().contains(e.salt ^ e.seq) && t0 == now,
        got.len() > 0 ==> d.groups.dom().contains(e.salt ^ e.seq) && holds_shards(
            d.groups[e.salt ^ e.seq],
            e,
            parity,
            got,
            t0,
        ) && engine_state::elapsed(now, t0) < FEC_GROUP_TTL,
        pushed(d, fec::group_frames(e, parity)[i], now, out, d1),
    ensures
        ({
            let id = e.salt ^ e.seq;
            &&& d1.frame_type == e.frame_type
            &&& !out.invalid
            &&& forall|x: u32| #[trigger]
                d1.groups.dom().contains(x) ==> d.groups.dom().contains(x) || x == id
            &&& forall|x: u32| #[trigger]
                d1.completed.contains(x) ==> d.completed.contains(x) || x == id
            &&& if got.len() + 1 < e.pending.len() {
                &&& out.recovered.len() == 0
                &&& d1.completed == d.completed
                &&& d1.groups.dom().contains(id)
                &&& holds_shards(d1.groups[id], e, parity, got.push(i), t0)
            } else {
                &&& out.recovered == e.pending
                &&& d1.completed.contains(id)
                &&& !d1.groups.dom().contains(id)
            }
        }),
{
    let id = e.salt ^ e.seq;
    let raw = fec::group_frames(e, parity)[i];
    frame_brings_shard(e, parity, i);
    assert(raw.len() >= FEC_COMPACT_HEADER_LEN);
    let (s, missing) = swept(d, now);
    assert(s.completed == d.completed);
    assert(accepted(s, raw, now, missing, out, d1));
    let (room, more) = choose|room: Map<u32, GroupView>, more: nat|
        {
            &&& #[trigger] made_room(s.groups, id, room, more)
            &&& (out, d1) == taken(DecoderView { groups: room, ..s }, raw, now, missing + more)
            &&& closes(room, raw, now) ==> forall|pkts: Seq<Seq<u8>>| #[trigger]
                from_packets(with_shard(group_of(room, raw, now), raw), pkts) ==> out.recovered
                    == pkts
        };
    let g = group_of(room, raw, now);
    if got.len() > 0 {
        assert(s.groups.dom().contains(id));
        assert(room == s.groups);
        assert(g == d.groups[id]);
    } else {
        assert(!room.dom().contains(id));
        present_of_none(g.received, g.received.len());
        assert(holds_shards(g, e, parity, got, t0));
    }
    assert(!other_shape(g, raw));
    assert(g.received[i] is None);
    let g1 = with_shard(g, raw);
    present_update(g.received, i, payload_of(raw), g.received.len());
    present_grows(g1.received, g1.data as nat, g1.received.len());
    let more_got = got.push(i);
    assert forall|j: int| 0 <= j < g1.received.len() implies ((#[trigger] g1.received[j]) is Some
        <==> more_got.contains(j)) by {
        if got.contains(j) {
            let x = choose|x: int| 0 <= x < got.len() && got[x] == j;
            assert(more_got[x] == j);
        }
        if j == i {
            assert(more_got[got.len() as int] == i);
        }
        if more_got.contains(j) && j != i {
            let x = choose|x: int| 0 <= x < more_got.len() && more_got[x] == j;
            assert(got[x] == j);
        }
        assert(g.received[j] is Some <==> got.contains(j));
    }
    assert forall|j: int| 0 <= j < g1.received.len() && (#[trigger] g1.received[j]) is Some implies
        g1.received[j]->0 == payload_of(fec::group_frames(e, parity)[j]) by {
        if j != i {
            assert(g.received[j] is Some);
        }
    }
    assert(holds_shards(g1, e, parity, more_got, t0));
    if got.len() + 1 == e.pending.len() {
        assert(enough(g1));
        assert(closes(room, raw, now));
        shards_of_frames_give_packets(e, parity, g1);
        assert(from_packets(g1, e.pending));
        let c = completed(DecoderView { groups: room, ..s }, id);
        assert(d1 == c);
        assert(c.completed[c.completed.len() - 1] == id);
        assert forall|x: u32| #[trigger] d1.completed.contains(x) implies d.completed.contains(x)
            || x == id by {
            let y = choose|y: int| 0 <= y < c.completed.len() && c.completed[y] == x;
            if y < c.completed.len() - 1 {
                if d.completed.len() >= FEC_COMPLETED_GROUPS_CAP {
                    assert(d.completed[y + 1] == x);
                } else {
                    assert(d.completed[y] == x);
                }
            }
        }
    }
}

/// The decoder takes the frames of a group at the places `order`, at `times`, goes through
/// `ds`, and gives `outs`.
pub open spec fn takes_frames(
    e: fec::EncoderView,
    parity: nat,
    order: Seq<int>,
    times: Seq<u64>,
    ds: Seq<DecoderView>,
    outs: Seq<ResultView>,
) -> bool {
    &&& times.len() == order.len()
    &&& outs.len() == order.len()
    &&& ds.len() == order.len() + 1
    &&& order.no_duplicates()
    &&& forall|j: int| 0 <= j < order.len() ==> 0 <= #[trigger] order[j] < e.pending.len() + parity
    &&& forall|j: int|
        0 <= j < order.len() ==> engine_state::elapsed(#[trigger] times[j], times[0])
            < FEC_GROUP_TTL
    &&& forall|j: int|
        0 <= j < order.len() ==> pushed(
            ds[j],
            fec::group_frames(e, parity)[order[j]],
            times[j],
            #[trigger] outs[j],
            ds[j + 1],
        )
}

proof fn frames_fill_the_group(
    e: fec::EncoderView,
    parity: nat,
    order: Seq<int>,
    times: Seq<u64>,
    ds: Seq<DecoderView>,
    outs: Seq<ResultView>,
    m: nat,
)
    requires
        sound_group(e, parity),
        takes_frames(e, parity, order, times, ds, outs),
        order.len() == e.pending.len(),
        m < e.pending.len(),
        ds[0].frame_type == e.frame_type,
        !ds[0].completed.contains(e.salt ^ e.seq),
        !ds[0].groups.dom().contains(e.salt ^ e.seq),
    ensures
        ({
            let id = e.salt ^ e.seq;
            let d = ds[m as int];
            &&& d.frame_type == e.frame_type
            &&& d.completed == ds[0].completed
            &&& m == 0 ==> !d.groups.dom().contains(id)
            &&& m > 0 ==> d.groups.dom().contains(id) && holds_shards(
                d.groups[id],
                e,
                parity,
                order.take(m as int),
                times[0],
            )
            &&& forall|x: u32| #[trigger]
                d.groups.dom().contains(x) ==> ds[0].groups.dom().contains(x) || x == id
            &&& forall|j: int| 0 <= j < m ==> (#[trigger] outs[j]).recovered.len() == 0
        }),
    decreases m,
{
    if m > 0 {
        let k = (m - 1) as nat;
        frames_fill_the_group(e, parity, order, times, ds, outs, k);
        let got = order.take(k as int);
        let i = order[k as int];
        assert(!got.contains(i)) by {
            if got.contains(i) {
                let x = choose|x: int| 0 <= x < got.len() && got[x] == i;
                assert(order[x] == order[k as int]);
            }
        }
        assert(pushed(
            ds[k as int],
            fec::group_frames(e, parity)[i],
            times[k as int],
            outs[k as int],
            ds[k as int + 1],
        ));
        assert(engine_state::elapsed(times[k as int], times[0]) < FEC_GROUP_TTL);
        one_more_frame(
            e,
            parity,
            got,
            i,
            ds[k as int],
            times[k as int],
            times[0],
            outs[k as int],
            ds[k as int + 1],
        );
        assert(order.take(m as int) =~= got.push(i));
    }
}

/// A group comes back: as soon as as many different frames of it have come as it has
/// packets, whichever they are and in whatever order, all its packets come out, once, in
/// their order and unchanged.
pub proof fn group_comes_back(
    e: fec::EncoderView,
    parity: nat,
    order: Seq<int>,
    times: Seq<u64>,
    ds: Seq<DecoderView>,
    outs: Seq<ResultView>,
)
    requires
        sound_group(e, parity),
        takes_frames(e, parity, order, times, ds, outs),
        order.len() == e.pending.len(),
        ds[0].frame_type == e.frame_type,
        !ds[0].completed.contains(e.salt ^ e.seq),
        !ds[0].groups.dom().contains(e.salt ^ e.seq),
    ensures
        outs.last().recovered == e.pending,
        forall|j: int| 0 <= j < outs.len() - 1 ==> (#[trigger] outs[j]).recovered.len() == 0,
        ds.last().completed.contains(e.salt ^ e.seq),
        ds.last().frame_type == e.frame_type,
        forall|x: u32| #[trigger]
            ds.last().groups.dom().contains(x) ==> ds[0].groups.dom().contains(x),
        forall|x: u32| #[trigger]
            ds.last().completed.contains(x) ==> ds[0].completed.contains(x) || x == e.salt ^ e.seq,
{
    let k = (e.pending.len() - 1) as nat;
    frames_fill_the_group(e, parity, order, times, ds, outs, k);
    let got = order.take(k as int);
    let i = order[k as int];
    assert(!got.contains(i)) by {
        if got.contains(i) {
            let x = choose|x: int| 0 <= x < got.len() && got[x] == i;
            assert(order[x] == order[k as int]);
        }
    }
    assert(pushed(
        ds[k as int],
        fec::group_frames(e, parity)[i],
        times[k as int],
        outs[k as int],
        ds[k as int + 1],
    ));
    assert(engine_state::elapsed(times[k as int], times[0]) < FEC_GROUP_TTL);
    one_more_frame(
        e,
        parity,
        got,
        i,
        ds[k as int],
        times[k as int],
        times[0],
        outs[k as int],
        ds[k as int + 1],
    );
}

/// A late frame of a group that came back gives nothing, and changes nothing but what
/// the time changes.
pub proof fn late_frames_give_nothing(
    d: DecoderView,
    raw: Seq<u8>,
    now: u64,
    out: ResultView,
    d1: DecoderView,
)
    requires
        raw.len() >= FEC_COMPACT_HEADER_LEN,
        raw[0] == d.frame_type,
        d.completed.contains(fec_codec::head_of(raw).group_id),
        pushed(d, raw, now, out, d1),
    ensures
        out.recovered.len() == 0,
        !out.invalid,
        d1.completed == d.completed,
        forall|x: u32| #[trigger]
            d1.groups.dom().contains(x) ==> d.groups.dom().contains(x) && d1.groups[x]
                == d.groups[x],
{
}

/// One group after the other comes back, as long as their ids differ: what the sender put
/// in comes out, group by group.
pub proof fn all_groups_come_back(
    es: Seq<fec::EncoderView>,
    parities: Seq<nat>,
    orders: Seq<Seq<int>>,
    times: Seq<Seq<u64>>,
    ds: Seq<Seq<DecoderView>>,
    outs: Seq<Seq<ResultView>>,
    k: nat,
)
    requires
        k < es.len(),
        parities.len() == es.len(),
        orders.len() == es.len(),
        times.len() == es.len(),
        ds.len() == es.len(),
        outs.len() == es.len(),
        forall|g: int|
            0 <= g < es.len() ==> sound_group(#[trigger] es[g], parities[g]) && orders[g].len()
                == es[g].pending.len() && es[g].frame_type == ds[0][0].frame_type && takes_frames(
                es[g],
                parities[g],
                orders[g],
                times[g],
                ds[g],
                outs[g],
            ),
        forall|g: int| 0 <= g < es.len() - 1 ==> ds[g + 1][0] == (#[trigger] ds[g]).last(),
        forall|g: int, h: int|
            0 <= g < h < es.len() ==> (#[trigger] es[g]).salt ^ es[g].seq != (
            #[trigger] es[h]).salt ^ es[h].seq,
        forall|g: int|
            0 <= g < es.len() ==> !ds[0][0].completed.contains(
                (#[trigger] es[g]).salt ^ es[g].seq,
            ) && !ds[0][0].groups.dom().contains(es[g].salt ^ es[g].seq),
    ensures
        outs[k as int].last().recovered == es[k as int].pending,
        ds[k as int].last().frame_type == ds[0][0].frame_type,
        forall|h: int|
            k < h < es.len() ==> !ds[k as int].last().completed.contains(
                (#[trigger] es[h]).salt ^ es[h].seq,
            ) && !ds[k as int].last().groups.dom().contains(es[h].salt ^ es[h].seq),
    decreases k,
{
    let g = k as int;
    if k > 0 {
        all_groups_come_back(es, parities, orders, times, ds, outs, (k - 1) as nat);
        assert(ds[g - 1 + 1][0] == ds[g - 1].last());
        assert(!ds[g - 1].last().completed.contains(es[g].salt ^ es[g].seq));
    }
    assert(sound_group(es[g], parities[g]));
    assert(!ds[g][0].completed.contains(es[g].salt ^ es[g].seq));
    group_comes_back(es[g], parities[g], orders[g], times[g], ds[g], outs[g]);
    assert forall|h: int| k < h < es.len() implies !ds[g].last().completed.contains(
        (#[trigger] es[h]).salt ^ es[h].seq,
    ) && !ds[g].last().groups.dom().contains(es[h].salt ^ es[h].seq) by {
        assert(es[g].salt ^ es[g].seq != es[h].salt ^ es[h].seq);
        assert(!ds[g][0].completed.contains(es[h].salt ^ es[h].seq));
    }
}

} // verus!
