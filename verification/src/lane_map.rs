//! The lanes of all destinations, in the order in which they came.

use crate::addr::{Endpoint, IpAddr};
use crate::lane;
use crate::lane::PeerDataQueue;
use indexmap::IndexMap;
use std::hash::RandomState;
use vstd::prelude::*;

verus! {

/// `indexmap::IndexMap`, of which only what [`lanes`] says is known.
#[verifier::external_type_specification]
#[verifier::external_body]
#[verifier::reject_recursive_types(K)]
#[verifier::reject_recursive_types(V)]
#[verifier::reject_recursive_types(S)]
pub struct ExIndexMap<K, V, S>(indexmap::IndexMap<K, V, S>);

/// A destination as numbers: its kind of address, its address and its port.
pub type PeerKey = (u8, u64, u64, u16);

/// The entries of the map, in their order.
pub uninterp spec fn lanes(m: IndexMap<PeerKey, PeerDataQueue, RandomState>) -> Seq<
    (PeerKey, PeerDataQueue),
>;

/// The destination is at `i`.
pub open spec fn has_at(s: Seq<(PeerKey, PeerDataQueue)>, k: PeerKey, i: int) -> bool {
    0 <= i < s.len() && s[i].0 == k
}

/// Calls `indexmap::IndexMap::new`: there are no entries.
#[verifier::external_body]
fn map_new() -> (m: IndexMap<PeerKey, PeerDataQueue, RandomState>)
    ensures
        lanes(m) == Seq::<(PeerKey, PeerDataQueue)>::empty(),
{
    IndexMap::new()
}

/// Calls `indexmap::IndexMap::len`: the number of entries.
#[verifier::external_body]
fn map_len(m: &IndexMap<PeerKey, PeerDataQueue, RandomState>) -> (n: usize)
    ensures
        n == lanes(*m).len(),
{
    m.len()
}

/// Calls `indexmap::IndexMap::get_index_of`: the place of the entry with the key,
/// if there is one.
#[verifier::external_body]
fn map_index_of(m: &IndexMap<PeerKey, PeerDataQueue, RandomState>, k: PeerKey) -> (out: Option<
    usize,
>)
    ensures
        match out {
            Some(i) => has_at(lanes(*m), k, i as int),
            None => forall|i: int| !(#[trigger] has_at(lanes(*m), k, i)),
        },
{
    m.get_index_of(&k)
}

/// Calls `indexmap::IndexMap::get_index`: the entry at a place, if there is one.
#[verifier::external_body]
fn map_at(m: &IndexMap<PeerKey, PeerDataQueue, RandomState>, i: usize) -> (out: Option<
    (&PeerKey, &PeerDataQueue),
>)
    ensures
        match out {
            Some((k, v)) => i < lanes(*m).len() && lanes(*m)[i as int] == (*k, *v),
            None => i >= lanes(*m).len(),
        },
{
    m.get_index(i)
}

/// Calls `indexmap::IndexMap::get_index_mut`: the value at a place can be
/// changed, and nothing else changes.
#[verifier::external_body]
fn map_at_mut(m: &mut IndexMap<PeerKey, PeerDataQueue, RandomState>, i: usize) -> (out:
    &mut PeerDataQueue)
    requires
        i < lanes(*old(m)).len(),
    ensures
        *out == lanes(*old(m))[i as int].1,
        lanes(*final(m)) == lanes(*old(m)).update(
            i as int,
            (lanes(*old(m))[i as int].0, *final(out)),
        ),
{
    m.get_index_mut(i).unwrap().1
}

/// Calls `indexmap::IndexMap::insert`: a new key goes to the end with its value,
/// and a key that is there keeps its place and gets the value.
#[verifier::external_body]
fn map_insert(m: &mut IndexMap<PeerKey, PeerDataQueue, RandomState>, k: PeerKey, v: PeerDataQueue)
    ensures
        (forall|i: int| !(#[trigger] has_at(lanes(*old(m)), k, i))) ==> lanes(*final(m)) == lanes(
            *old(m),
        ).push((k, v)),
        forall|i: int| #[trigger]
            has_at(lanes(*old(m)), k, i) ==> lanes(*final(m)) == lanes(*old(m)).update(i, (k, v)),
{
    let _ = m.insert(k, v);
}

/// Calls `indexmap::IndexMap::shift_remove_index`: the entry at a place is taken
/// out, and the others keep their order.
#[verifier::external_body]
fn map_remove_at(m: &mut IndexMap<PeerKey, PeerDataQueue, RandomState>, i: usize) -> (out: Option<
    (PeerKey, PeerDataQueue),
>)
    ensures
        match out {
            Some(e) => i < lanes(*old(m)).len() && e == lanes(*old(m))[i as int] && lanes(
                *final(m),
            ) == lanes(*old(m)).remove(i as int),
            None => i >= lanes(*old(m)).len() && lanes(*final(m)) == lanes(*old(m)),
        },
{
    m.shift_remove_index(i)
}

/// Calls `indexmap::IndexMap::clear`: no entry is left.
#[verifier::external_body]
fn map_clear(m: &mut IndexMap<PeerKey, PeerDataQueue, RandomState>)
    ensures
        lanes(*final(m)) == Seq::<(PeerKey, PeerDataQueue)>::empty(),
{
    m.clear()
}

/// The destination as numbers.
pub open spec fn key_of(ep: Endpoint) -> PeerKey {
    match ep.ip {
        IpAddr::V4(a) => (4u8, a as u64, 0u64, ep.port),
        IpAddr::V6(hi, lo) => (6u8, hi, lo, ep.port),
    }
}

/// The destination that numbers stand for.
pub open spec fn ep_of(k: PeerKey) -> Endpoint {
    if k.0 == 4 {
        Endpoint { ip: IpAddr::V4(k.1 as u32), port: k.3 }
    } else {
        Endpoint { ip: IpAddr::V6(k.1, k.2), port: k.3 }
    }
}

fn peer_key(ep: Endpoint) -> (k: PeerKey)
    ensures
        k == key_of(ep),
        ep_of(k) == ep,
{
    match ep.ip {
        IpAddr::V4(a) => (4u8, a as u64, 0u64, ep.port),
        IpAddr::V6(hi, lo) => (6u8, hi, lo, ep.port),
    }
}

fn peer_of(k: &PeerKey) -> (ep: Endpoint)
    requires
        key_of(ep_of(*k)) == *k,
    ensures
        ep == ep_of(*k),
{
    if k.0 == 4 {
        Endpoint { ip: IpAddr::V4(k.1 as u32), port: k.3 }
    } else {
        Endpoint { ip: IpAddr::V6(k.1, k.2), port: k.3 }
    }
}

/// The lanes of all destinations.
pub struct LaneMap {
    map: IndexMap<PeerKey, PeerDataQueue, RandomState>,
}

/// The destination stands at `i`.
pub open spec fn lane_at(s: Seq<(Endpoint, lane::LaneView)>, ep: Endpoint, i: int) -> bool {
    0 <= i < s.len() && s[i].0 == ep
}

/// No destination occurs twice.
pub open spec fn distinct_lanes(s: Seq<(Endpoint, lane::LaneView)>) -> bool {
    forall|i: int, j: int| 0 <= i < j < s.len() ==> (#[trigger] s[i]).0 != (#[trigger] s[j]).0
}

impl View for LaneMap {
    type V = Seq<(Endpoint, lane::LaneView)>;

    closed spec fn view(&self) -> Seq<(Endpoint, lane::LaneView)> {
        Seq::new(
            lanes(self.map).len(),
            |i: int| (ep_of(lanes(self.map)[i].0), lanes(self.map)[i].1@),
        )
    }
}

/// No key occurs twice, and all keys stand for destinations.
pub open spec fn keys_ok(s: Seq<PeerKey>) -> bool {
    &&& forall|i: int, j: int| 0 <= i < j < s.len() ==> #[trigger] s[i] != #[trigger] s[j]
    &&& forall|i: int| 0 <= i < s.len() ==> key_of(ep_of(#[trigger] s[i])) == s[i]
}

impl LaneMap {
    /// The keys, in their order.
    pub closed spec fn keys(&self) -> Seq<PeerKey> {
        Seq::new(lanes(self.map).len(), |i: int| lanes(self.map)[i].0)
    }

    /// No destination occurs twice, and all keys stand for destinations.
    pub open spec fn wf(&self) -> bool {
        keys_ok(self.keys())
    }

    pub fn new() -> (out: Self)
        ensures
            out.wf(),
            out@ == Seq::<(Endpoint, lane::LaneView)>::empty(),
    {
        let out = LaneMap { map: map_new() };
        proof {
            assert(out@ =~= Seq::<(Endpoint, lane::LaneView)>::empty());
        }
        out
    }

    /// No destination occurs twice.
    pub proof fn destinations_distinct(&self)
        requires
            self.wf(),
        ensures
            distinct_lanes(self@),
    {
        let k = self.keys();
        assert forall|i: int, j: int| 0 <= i < j < self@.len() implies (#[trigger] self@[i]).0 != (
        #[trigger] self@[j]).0 by {
            assert(k[i] != k[j]);
            assert(key_of(ep_of(k[i])) == k[i] && key_of(ep_of(k[j])) == k[j]);
        }
    }

    pub fn len(&self) -> (n: usize)
        ensures
            n == self@.len(),
    {
        map_len(&self.map)
    }

    /// Where the destination stands.
    pub fn index_of(&self, ep: Endpoint) -> (out: Option<usize>)
        requires
            self.wf(),
        ensures
            match out {
                Some(i) => lane_at(self@, ep, i as int),
                None => forall|i: int| !(#[trigger] lane_at(self@, ep, i)),
            },
    {
        let k = peer_key(ep);
        let out = map_index_of(&self.map, k);
        proof {
            let s = lanes(self.map);
            if out is None {
                assert forall|i: int| !(#[trigger] lane_at(self@, ep, i)) by {
                    if lane_at(self@, ep, i) {
                        assert(key_of(ep_of(self.keys()[i])) == self.keys()[i]);
                        assert(has_at(s, k, i));
                    }
                }
            }
        }
        out
    }

    /// The destination and its lanes at a place.
    pub fn at(&self, i: usize) -> (out: (Endpoint, &PeerDataQueue))
        requires
            self.wf(),
            i < self@.len(),
        ensures
            (out.0, out.1@) == self@[i as int],
    {
        match map_at(&self.map, i) {
            Some((k, q)) => {
                proof {
                    assert(key_of(ep_of(self.keys()[i as int])) == self.keys()[i as int]);
                }
                (peer_of(k), q)
            },
            None => {
                proof {
                    assert(false);
                }
                vstd::pervasive::unreached()
            },
        }
    }

    /// The lanes at a place, to be changed.
    pub fn at_mut(&mut self, i: usize) -> (out: &mut PeerDataQueue)
        requires
            i < old(self)@.len(),
        ensures
            out@ == old(self)@[i as int].1,
            final(self).keys() == old(self).keys(),
            final(self)@ == old(self)@.update(i as int, (old(self)@[i as int].0, final(out)@)),
    {
        map_at_mut(&mut self.map, i)
    }

    /// Adds empty lanes for a destination that has none.
    pub fn add(&mut self, ep: Endpoint)
        requires
            old(self).wf(),
            forall|i: int| !(#[trigger] lane_at(old(self)@, ep, i)),
        ensures
            final(self).wf(),
            final(self)@ == old(self)@.push((ep, lane::empty_lane())),
    {
        let k = peer_key(ep);
        let ghost s = lanes(self.map);
        let ghost v0 = self@;
        let ghost k0 = self.keys();
        proof {
            assert forall|i: int| !(#[trigger] has_at(s, k, i)) by {
                if has_at(s, k, i) {
                    assert(lane_at(v0, ep, i));
                }
            }
        }
        map_insert(&mut self.map, k, PeerDataQueue::new());
        proof {
            assert(self.keys() =~= k0.push(k));
            assert forall|i: int, j: int|
                0 <= i < j < self.keys().len() implies #[trigger] self.keys()[i]
                != #[trigger] self.keys()[j] by {
                if j == k0.len() {
                    assert(!has_at(s, k, i));
                }
            }
            assert(self@ =~= v0.push((ep, lane::empty_lane())));
        }
    }

    /// Takes the lanes at a place out. The others keep their order.
    pub fn remove_at(&mut self, i: usize)
        requires
            old(self).wf(),
            i < old(self)@.len(),
        ensures
            final(self).wf(),
            final(self)@ == old(self)@.remove(i as int),
    {
        let ghost v0 = self@;
        let ghost k0 = self.keys();
        let _ = map_remove_at(&mut self.map, i);
        proof {
            assert(self.keys() =~= k0.remove(i as int));
            assert forall|a: int, b: int|
                0 <= a < b < self.keys().len() implies #[trigger] self.keys()[a]
                != #[trigger] self.keys()[b] by {
                let x = if a < i { a } else { a + 1 };
                let y = if b < i { b } else { b + 1 };
                assert(k0[x] != k0[y]);
            }
            assert(self@ =~= v0.remove(i as int));
        }
    }

    pub fn clear(&mut self)
        ensures
            final(self).wf(),
            final(self)@ == Seq::<(Endpoint, lane::LaneView)>::empty(),
    {
        map_clear(&mut self.map);
        proof {
            assert(self@ =~= Seq::<(Endpoint, lane::LaneView)>::empty());
        }
    }
}

} // verus!
