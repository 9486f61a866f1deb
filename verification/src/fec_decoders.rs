//! The decoders, one for each peer that sends groups of shards.

use crate::addr::Endpoint;
use crate::fec_decoder;
use crate::fec_decoder::{DecoderView, FecDecodeResult, FecDecoder};
use crate::routing::RoutingTable;
use crate::table;
use crate::table::{Key, Table};
use vstd::prelude::*;

verus! {

/// The decoders by peer.
pub struct FecDecoders {
    pub frame_type: u8,
    pub by_peer: Table<Endpoint, FecDecoder>,
}

/// What decoders stand for.
pub open spec fn decoders_view(m: Map<Endpoint, FecDecoder>) -> Map<Endpoint, DecoderView> {
    m.map_values(|d: FecDecoder| d@)
}

/// The decoder of a peer: one that has seen nothing, where it has none.
pub open spec fn decoder_of(
    m: Map<Endpoint, DecoderView>,
    from: Endpoint,
    frame_type: u8,
    now: u64,
) -> DecoderView {
    if m.dom().contains(from) {
        m[from]
    } else {
        DecoderView { frame_type, groups: Map::empty(), completed: Seq::empty(), last_evict: now }
    }
}

/// The decoders that stay: those of peers with a route, and those with groups that
/// have not waited too long.
pub open spec fn pruned(
    m: Map<Endpoint, DecoderView>,
    known: Set<Endpoint>,
    now: u64,
) -> Map<Endpoint, DecoderView> {
    Map::new(
        |ep: Endpoint|
            m.dom().contains(ep) && (known.contains(ep) || fec_decoder::evicted(
                m[ep],
                now,
            ).groups.dom().len() > 0),
        |ep: Endpoint| fec_decoder::evicted(m[ep], now),
    )
}

impl View for FecDecoders {
    type V = Map<Endpoint, DecoderView>;

    open spec fn view(&self) -> Map<Endpoint, DecoderView> {
        decoders_view(self.by_peer@)
    }
}

impl FecDecoders {
    pub open spec fn wf(&self) -> bool {
        &&& self.by_peer.wf()
        &&& forall|i: int|
            0 <= i < self.by_peer.entries@.len() ==> (#[trigger] self.by_peer.entries@[i]).1.wf()
    }

    pub fn new(frame_type: u8) -> (out: Self)
        ensures
            out.wf(),
            out.frame_type == frame_type,
            out@ == Map::<Endpoint, DecoderView>::empty(),
    {
        let out = FecDecoders { frame_type, by_peer: Table::new() };
        proof {
            assert(out@ =~= Map::<Endpoint, DecoderView>::empty());
        }
        out
    }

    /// Takes a frame in that came from `from`.
    pub fn push(&mut self, from: Endpoint, raw: &[u8], now: u64) -> (out: FecDecodeResult)
        requires
            old(self).wf(),
        ensures
            final(self).wf(),
            final(self).frame_type == old(self).frame_type,
            final(self)@.dom() == old(self)@.dom().insert(from),
            forall|ep: Endpoint| #[trigger]
                old(self)@.dom().contains(ep) && ep != from ==> final(self)@[ep] == old(self)@[ep],
            fec_decoder::pushed(
                decoder_of(old(self)@, from, old(self).frame_type, now),
                raw@,
                now,
                out@,
                final(self)@[from],
            ),
    {
        let ghost m0 = self@;
        let ghost before = decoder_of(m0, from, self.frame_type, now);
        let i: usize = match self.by_peer.find(&from) {
            Some(i) => {
                proof {
                    assert(self.by_peer.entries@[i as int].1@ == before);
                }
                i
            },
            None => {
                let d = FecDecoder::new(self.frame_type, now);
                let ghost s = self.by_peer.entries@;
                let n: usize = self.by_peer.entries.len();
                self.by_peer.insert(from, d);
                proof {
                    assert(self.by_peer.entries@[n as int].1@ =~= before);
                    assert forall|j: int| 0 <= j < self.by_peer.entries@.len() implies (
                    #[trigger] self.by_peer.entries@[j]).1.wf() by {
                        if j < s.len() {
                            assert(self.by_peer.entries@[j] == s[j]);
                        }
                    }
                }
                n
            },
        };
        let ghost s1 = self.by_peer.entries@;
        let out = self.by_peer.entries[i].1.push_shard(raw, now);
        proof {
            let e = self.by_peer.entries@[i as int];
            table::map_of_update(s1, i as int, e);
            assert(self.by_peer.entries@ =~= s1.update(i as int, e));
            assert(self@.dom() =~= m0.dom().insert(from));
        }
        out
    }

    /// Drops the decoder of a peer.
    pub fn remove(&mut self, ep: Endpoint)
        requires
            old(self).wf(),
        ensures
            final(self).wf(),
            final(self).frame_type == old(self).frame_type,
            final(self)@ == old(self)@.remove(ep),
    {
        let ghost s = self.by_peer.entries@;
        let ghost m0 = self@;
        match self.by_peer.find(&ep) {
            Some(i) => {
                proof {
                    table::map_of_remove(s, i as int);
                }
                let _ = self.by_peer.entries.remove(i);
                proof {
                    assert forall|j: int| 0 <= j < self.by_peer.entries@.len() implies (
                    #[trigger] self.by_peer.entries@[j]).1.wf() by {
                        assert(self.by_peer.entries@[j] == s[if j < i { j } else { j + 1 }]);
                    }
                }
            },
            None => {},
        }
        proof {
            assert(self@ =~= m0.remove(ep));
        }
    }

    /// Drops groups that have waited too long, and the decoders of peers without a
    /// route that have no group left.
    pub fn prune(&mut self, rt: &RoutingTable, now: u64)
        requires
            old(self).wf(),
            rt.wf(),
        ensures
            final(self).wf(),
            final(self).frame_type == old(self).frame_type,
            final(self)@ == pruned(old(self)@, rt.vips().dom(), now),
    {
        let ghost s0 = self.by_peer.entries@;
        let ghost m0 = self@;
        let total: usize = self.by_peer.entries.len();
        let mut i: usize = 0;
        while i < total
            invariant
                i <= total,
                total == s0.len(),
                table::distinct_keys(s0),
                self.frame_type == old(self).frame_type,
                self.by_peer.entries@.len() == total,
                forall|j: int|
                    0 <= j < total ==> (#[trigger] self.by_peer.entries@[j]).0 == s0[j].0
                        && self.by_peer.entries@[j].1.wf(),
                forall|j: int|
                    0 <= j < i ==> (#[trigger] self.by_peer.entries@[j]).1@
                        == fec_decoder::evicted(s0[j].1@, now),
                forall|j: int| i <= j < total ==> #[trigger] self.by_peer.entries@[j] == s0[j],
            decreases total - i,
        {
            let ghost s = self.by_peer.entries@;
            let _ = self.by_peer.entries[i].1.evict_expired(now);
            proof {
                assert forall|j: int| 0 <= j < total && j != i implies
                    #[trigger] self.by_peer.entries@[j] == s[j] by {}
            }
            i += 1;
        }
        let ghost s1 = self.by_peer.entries@;
        proof {
            assert(table::distinct_keys(s1)) by {
                assert forall|a: int, b: int| 0 <= a < b < s1.len() implies (
                #[trigger] s1[a]).0.id() != (#[trigger] s1[b]).0.id() by {
                    assert(s0[a].0.id() != s0[b].0.id());
                }
            }
        }
        let ghost p = |e: (Endpoint, FecDecoder)|
            rt.vips().dom().contains(e.0) || e.1.groups.entries@.len() != 0;
        let f = |k: &Endpoint, d: &FecDecoder| -> (b: bool)
            requires
                rt.wf(),
            ensures
                b == (rt.vips().dom().contains(*k) || d.groups.entries@.len() != 0),
            { rt.tracks_endpoint(*k) || d.groups.entries.len() != 0 };
        self.by_peer.retain_where(f, Ghost(p));
        proof {
            let s2 = s1.filter(p);
            let want = pruned(m0, rt.vips().dom(), now);
            table::map_of_filter(s1, p);
            assert forall|j: int| 0 <= j < s2.len() implies (#[trigger] s2[j]).1.wf() by {
                table::map_of_at(s2, j);
                let k = s2[j].0.id();
                assert(table::key_at(s2, k, j));
                assert(table::has_key(s2, k));
                let i = choose|i: int| #[trigger] table::key_at(s1, k, i) && p(s1[i]);
                table::map_of_at(s1, i);
            }
            assert forall|ep: Endpoint| #[trigger] self@.dom().contains(ep) <==> want.dom().contains(
                ep,
            ) by {
                if m0.dom().contains(ep) {
                    let i = choose|i: int| table::key_at(s0, ep, i);
                    table::map_of_at(s0, i);
                    table::map_of_at(s1, i);
                    groups_counted(s1[i].1);
                    assert(table::key_at(s1, ep, i));
                    if table::has_key(s2, ep) {
                        let x = choose|x: int| #[trigger] table::key_at(s1, ep, x) && p(s1[x]);
                        table::map_of_at(s1, x);
                    }
                }
                if table::has_key(s2, ep) {
                    let x = choose|x: int| #[trigger] table::key_at(s1, ep, x) && p(s1[x]);
                    assert(table::key_at(s0, ep, x));
                }
            }
            assert forall|ep: Endpoint| #[trigger] self@.dom().contains(ep) implies self@[ep]
                == want[ep] by {
                let i = choose|i: int| table::key_at(s0, ep, i);
                table::map_of_at(s0, i);
                table::map_of_at(s1, i);
            }
            assert(self@ =~= want);
        }
    }
}

/// A decoder has as many groups as its table has entries.
proof fn groups_counted(d: FecDecoder)
    requires
        d.wf(),
    ensures
        d@.groups.dom().len() == d.groups.entries@.len(),
{
    table::map_of_len(d.groups.entries@);
    assert(d@.groups.dom() =~= d.groups@.dom());
}

} // verus!
