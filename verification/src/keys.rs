//! The keys of a network and of its peers.

use crate::addr::Endpoint;
use crate::routing::RoutingTable;
use crate::table;
use crate::table::Table;
use crate::text::bytes_eq;
use vstd::prelude::*;

verus! {

/// A network key, with the first three octets of the subnet that belongs to it.
#[derive(Clone, Copy)]
pub struct Key {
    pub bytes: [u8; 32],
    pub subnet24: (u8, u8, u8),
}

impl Key {
    pub open spec fn material(&self) -> Seq<u8> {
        self.bytes@
    }

    /// Whether two keys hold the same bytes.
    pub fn same_material(&self, other: &Key) -> (b: bool)
        ensures
            b == (self.material() == other.material()),
    {
        bytes_eq(&self.bytes, &other.bytes)
    }
}

/// A key in use. Two keys in use are told apart by their number even where
/// their bytes are the same.
#[derive(Clone, Copy)]
pub struct KeyRef {
    pub id: u64,
    pub key: Key,
}

/// How many keys besides the primary one are kept.
pub const MAX_EXTRA_KEYS: usize = 8;

/// The keys that packets are sealed and opened with.
pub struct CryptoPool {
    pub primary: Option<KeyRef>,
    /// Oldest first.
    pub extras: Vec<KeyRef>,
    pub per_peer: Table<Endpoint, KeyRef>,
    pub next_id: u64,
}

/// The last [`MAX_EXTRA_KEYS`] of `s`.
pub open spec fn newest(s: Seq<KeyRef>) -> Seq<KeyRef> {
    if s.len() > MAX_EXTRA_KEYS {
        s.subrange(s.len() - MAX_EXTRA_KEYS, s.len() as int)
    } else {
        s
    }
}

/// Some key of `s` holds the bytes `m`.
pub open spec fn holds_material(s: Seq<KeyRef>, m: Seq<u8>) -> bool {
    exists|i: int| 0 <= i < s.len() && (#[trigger] s[i]).key.material() == m
}

/// No two keys of `s` hold the same bytes.
pub open spec fn distinct_material(s: Seq<KeyRef>) -> bool {
    forall|i: int, j: int|
        0 <= i < j < s.len() ==> (#[trigger] s[i]).key.material() != (
        #[trigger] s[j]).key.material()
}

/// Some key of `s` has the number `id`.
pub open spec fn has_id(s: Seq<KeyRef>, id: u64) -> bool {
    exists|i: int| 0 <= i < s.len() && (#[trigger] s[i]).id == id
}

/// `s` with `k` behind it, unless its number is in `s` already.
pub open spec fn push_unique(s: Seq<KeyRef>, k: KeyRef) -> Seq<KeyRef> {
    if has_id(s, k.id) {
        s
    } else {
        s.push(k)
    }
}

/// `s` and then the first `n` of `extras`, the newest of them first.
pub open spec fn with_extras(s: Seq<KeyRef>, extras: Seq<KeyRef>, n: nat) -> Seq<KeyRef>
    decreases n,
{
    if n == 0 {
        s
    } else {
        with_extras(push_unique(s, extras[n - 1]), extras, (n - 1) as nat)
    }
}

/// Every number occurs once.
pub open spec fn distinct_ids(s: Seq<KeyRef>) -> bool {
    forall|i: int, j: int| 0 <= i < j < s.len() ==> (#[trigger] s[i]).id != (#[trigger] s[j]).id
}

/// The value of an option as a list.
pub open spec fn listed(k: Option<KeyRef>) -> Seq<KeyRef> {
    match k {
        Some(x) => seq![x],
        None => Seq::empty(),
    }
}

impl CryptoPool {
    /// `key` became the primary key, under the name `k`. It joined the extra keys
    /// too, unless one of them holds its bytes.
    pub open spec fn primary_set(pre: CryptoPool, post: CryptoPool, key: Key, k: KeyRef) -> bool {
        &&& k == (KeyRef { id: pre.next_id, key })
        &&& post.primary == Some(k)
        &&& post.next_id == pre.next_id + 1
        &&& post.per_peer == pre.per_peer
        &&& post.extras@ == if holds_material(pre.extras@, key.material()) {
            pre.extras@
        } else {
            newest(pre.extras@.push(k))
        }
    }

    /// `k` is the key in use that holds the bytes of `key`; where there was none,
    /// `key` joined the extra keys.
    pub open spec fn key_added(pre: CryptoPool, post: CryptoPool, key: Key, k: KeyRef) -> bool {
        let known = pre.primary is Some && pre.primary->0.key.material() == key.material();
        &&& k.key.material() == key.material()
        &&& post.primary == pre.primary
        &&& post.per_peer == pre.per_peer
        &&& if known {
            k == pre.primary->0 && post.extras == pre.extras && post.next_id == pre.next_id
        } else if holds_material(pre.extras@, key.material()) {
            pre.extras@.contains(k) && post.extras == pre.extras && post.next_id == pre.next_id
        } else {
            k == (KeyRef { id: pre.next_id, key }) && post.extras@ == newest(pre.extras@.push(k))
                && post.next_id == pre.next_id + 1
        }
    }

    pub open spec fn wf(&self) -> bool {
        &&& self.extras@.len() <= MAX_EXTRA_KEYS
        &&& distinct_material(self.extras@)
        &&& self.per_peer.wf()
    }

    /// The key that is bound to a peer.
    pub open spec fn bound(&self, peer: Endpoint) -> Option<KeyRef> {
        if self.per_peer@.dom().contains(peer) {
            Some(self.per_peer@[peer])
        } else {
            None
        }
    }

    /// Some key is in use.
    pub open spec fn any(&self) -> bool {
        self.primary is Some || self.extras@.len() > 0 || self.per_peer@.dom().len() > 0
    }

    pub fn new() -> (out: Self)
        ensures
            out.wf(),
            out.primary is None,
            out.extras@.len() == 0,
            out.per_peer@ == Map::<Endpoint, KeyRef>::empty(),
            out.next_id == 0,
            !out.any(),
    {
        CryptoPool { primary: None, extras: Vec::new(), per_peer: Table::new(), next_id: 0 }
    }

    /// Drops the oldest extra keys that are too many.
    fn trim_extras(&mut self)
        ensures
            final(self).extras@ == newest(old(self).extras@),
            final(self).primary == old(self).primary,
            final(self).per_peer == old(self).per_peer,
            final(self).next_id == old(self).next_id,
    {
        let ghost all = self.extras@;
        proof {
            assert(all.subrange(0, all.len() as int) =~= all);
        }
        while self.extras.len() > MAX_EXTRA_KEYS
            invariant
                self.primary == old(self).primary,
                self.per_peer == old(self).per_peer,
                self.next_id == old(self).next_id,
                self.extras@.len() <= all.len(),
                all.len() >= MAX_EXTRA_KEYS ==> self.extras@.len() >= MAX_EXTRA_KEYS,
                all.len() < MAX_EXTRA_KEYS ==> self.extras@ == all,
                self.extras@ == all.subrange(all.len() - self.extras@.len(), all.len() as int),
            decreases self.extras@.len(),
        {
            let ghost n = self.extras@.len();
            let _ = self.extras.remove(0);
            proof {
                assert(self.extras@ =~= all.subrange(all.len() - (n - 1), all.len() as int));
            }
        }
    }

    pub fn has_any(&self) -> (b: bool)
        requires
            self.wf(),
        ensures
            b == self.any(),
    {
        self.primary.is_some() || self.extras.len() > 0 || !self.per_peer.is_empty()
    }

    pub fn primary(&self) -> (out: Option<KeyRef>)
        ensures
            out == self.primary,
    {
        self.primary
    }

    /// How many extra keys there are.
    pub fn extras_len(&self) -> (n: usize)
        ensures
            n == self.extras@.len(),
    {
        self.extras.len()
    }

    /// Makes `key` the primary key. It joins the extra keys too, unless one of
    /// them holds its bytes.
    pub fn set_primary(&mut self, key: Key) -> (out: KeyRef)
        requires
            old(self).wf(),
            old(self).next_id < u64::MAX,
        ensures
            final(self).wf(),
            CryptoPool::primary_set(*old(self), *final(self), key, out),
            final(self).any(),
    {
        let out = KeyRef { id: self.next_id, key };
        self.next_id = self.next_id + 1;
        self.primary = Some(out);
        match self.find_extra(&key) {
            Some(_) => {},
            None => {
                self.push_extra(out);
            },
        }
        out
    }

    /// Adds an extra key.
    fn push_extra(&mut self, k: KeyRef)
        requires
            old(self).wf(),
            !holds_material(old(self).extras@, k.key.material()),
        ensures
            final(self).wf(),
            final(self).extras@ == newest(old(self).extras@.push(k)),
            final(self).extras@.len() > 0,
            final(self).primary == old(self).primary,
            final(self).per_peer == old(self).per_peer,
            final(self).next_id == old(self).next_id,
    {
        let ghost before = self.extras@;
        self.extras.push(k);
        proof {
            let s = self.extras@;
            assert(s =~= before.push(k));
            assert forall|i: int, j: int| 0 <= i < j < s.len() implies (
            #[trigger] s[i]).key.material() != (#[trigger] s[j]).key.material() by {
                if j == before.len() {
                    assert(before[i].key.material() != k.key.material());
                }
            }
        }
        self.trim_extras();
        proof {
            let s = before.push(k);
            let t = newest(s);
            assert forall|i: int, j: int| 0 <= i < j < t.len() implies (
            #[trigger] t[i]).key.material() != (#[trigger] t[j]).key.material() by {
                let d = s.len() - t.len();
                assert(t[i] == s[i + d]);
                assert(t[j] == s[j + d]);
            }
        }
    }

    /// The extra key with the bytes of `key`.
    fn find_extra(&self, key: &Key) -> (out: Option<KeyRef>)
        ensures
            match out {
                Some(k) => k.key.material() == key.material() && self.extras@.contains(k),
                None => !holds_material(self.extras@, key.material()),
            },
            out is Some == holds_material(self.extras@, key.material()),
    {
        let mut i: usize = 0;
        while i < self.extras.len()
            invariant
                i <= self.extras@.len(),
                forall|j: int|
                    0 <= j < i ==> (#[trigger] self.extras@[j]).key.material() != key.material(),
            decreases self.extras@.len() - i,
        {
            let k: KeyRef = self.extras[i];
            if k.key.same_material(key) {
                proof {
                    assert(self.extras@[i as int].key.material() == key.material());
                }
                return Some(k);
            }
            i += 1;
        }
        None
    }

    /// Adds `key`, or finds the key in use that holds its bytes.
    pub fn add_key(&mut self, key: Key) -> (out: KeyRef)
        requires
            old(self).wf(),
            old(self).next_id < u64::MAX,
        ensures
            final(self).wf(),
            CryptoPool::key_added(*old(self), *final(self), key, out),
            final(self).any(),
    {
        if let Some(existing) = self.primary {
            if existing.key.same_material(&key) {
                return existing;
            }
        }
        if let Some(existing) = self.find_extra(&key) {
            return existing;
        }
        let out = KeyRef { id: self.next_id, key };
        self.next_id = self.next_id + 1;
        self.push_extra(out);
        out
    }

    pub fn bind_peer_key(&mut self, peer: Endpoint, key: KeyRef)
        requires
            old(self).wf(),
        ensures
            final(self).wf(),
            final(self).per_peer@ == old(self).per_peer@.insert(peer, key),
            final(self).primary == old(self).primary,
            final(self).extras == old(self).extras,
            final(self).next_id == old(self).next_id,
            final(self).any(),
    {
        self.per_peer.insert(peer, key);
        proof {
            table::map_of_len(self.per_peer.entries@);
            assert(self.per_peer@.dom().contains(peer));
        }
    }

    pub fn unbind_peer(&mut self, peer: Endpoint)
        requires
            old(self).wf(),
        ensures
            final(self).wf(),
            final(self).per_peer@ == old(self).per_peer@.remove(peer),
            final(self).primary == old(self).primary,
            final(self).extras == old(self).extras,
            final(self).next_id == old(self).next_id,
    {
        let _ = self.per_peer.remove(&peer);
    }

    /// Unbinds the peers that have no route, except the owner.
    pub fn prune_per_peer_orphans(&mut self, rt: &RoutingTable, owner_ep: Option<Endpoint>)
        requires
            old(self).wf(),
            rt.wf(),
        ensures
            final(self).wf(),
            final(self).primary == old(self).primary,
            final(self).extras == old(self).extras,
            final(self).next_id == old(self).next_id,
            forall|ep: Endpoint| #[trigger]
                final(self).bound(ep) == if rt.vips().dom().contains(ep) || owner_ep == Some(ep) {
                    old(self).bound(ep)
                } else {
                    None
                },
    {
        let ghost before = self.per_peer.entries@;
        let ghost p = |e: (Endpoint, KeyRef)|
            rt.vips().dom().contains(e.0) || owner_ep == Some(e.0);
        let keep = |ep: &Endpoint, k: &KeyRef| -> (b: bool)
            requires
                rt.wf(),
            ensures
                b == (rt.vips().dom().contains(*ep) || owner_ep == Some(*ep)),
            {
                let is_owner = match owner_ep {
                    Some(o) => o == *ep,
                    None => false,
                };
                rt.tracks_endpoint(*ep) || is_owner
            };
        self.per_peer.retain_where(keep, Ghost(p));
        proof {
            table::map_of_filter(before, p);
            assert forall|ep: Endpoint| #[trigger] self.bound(ep) == if rt.vips().dom().contains(ep)
                || owner_ep == Some(ep) {
                old(self).bound(ep)
            } else {
                None
            } by {
                let f = before.filter(p);
                if table::has_key(before, ep) && (rt.vips().dom().contains(ep) || owner_ep == Some(
                    ep,
                )) {
                    let i = choose|i: int| table::key_at(before, ep, i);
                    assert(table::key_at(before, ep, i) && p(before[i]));
                    assert(table::has_key(f, ep));
                }
                if table::has_key(f, ep) {
                    let i = choose|i: int| #[trigger]
                        table::key_at(before, ep, i) && p(before[i]);
                    assert(table::map_of(f).dom().contains(ep));
                }
            }
        }
    }

    pub fn key_for_peer(&self, peer: Endpoint) -> (out: Option<KeyRef>)
        requires
            self.wf(),
        ensures
            out == self.bound(peer),
    {
        match self.per_peer.get(&peer) {
            Some(k) => Some(*k),
            None => None,
        }
    }

    /// The newest extra key.
    pub open spec fn newest_extra(&self) -> Option<KeyRef> {
        if self.extras@.len() > 0 {
            Some(self.extras@[self.extras@.len() - 1])
        } else {
            None
        }
    }

    fn last_extra(&self) -> (out: Option<KeyRef>)
        ensures
            out == self.newest_extra(),
    {
        if self.extras.len() > 0 {
            Some(self.extras[self.extras.len() - 1])
        } else {
            None
        }
    }

    /// The key that packets to `dest` are sealed with: the peer's own, else the
    /// primary one, else the newest of the others.
    pub fn key_for_dest(&self, dest: Endpoint) -> (out: Option<KeyRef>)
        requires
            self.wf(),
        ensures
            out == if self.bound(dest) is Some {
                self.bound(dest)
            } else if self.primary is Some {
                self.primary
            } else {
                self.newest_extra()
            },
    {
        match self.key_for_peer(dest) {
            Some(k) => Some(k),
            None => match self.primary {
                Some(k) => Some(k),
                None => self.last_extra(),
            },
        }
    }

    /// A key to sign with: the primary one, else the newest of the others, else
    /// that of some peer.
    pub fn shared_signing_key(&self) -> (out: Option<KeyRef>)
        requires
            self.wf(),
        ensures
            out is Some == self.any(),
            self.primary is Some ==> out == self.primary,
            self.primary is None && self.extras@.len() > 0 ==> out == self.newest_extra(),
            self.primary is None && self.extras@.len() == 0 && out is Some ==> exists|ep: Endpoint|
                #[trigger] self.bound(ep) == out,
    {
        match self.primary {
            Some(k) => Some(k),
            None => match self.last_extra() {
                Some(k) => Some(k),
                None => {
                    proof {
                        table::map_of_len(self.per_peer.entries@);
                    }
                    if self.per_peer.entries.len() > 0 {
                        proof {
                            table::map_of_at(self.per_peer.entries@, 0);
                            assert(self.bound(self.per_peer.entries@[0].0) == Some(
                                self.per_peer.entries@[0].1,
                            ));
                        }
                        Some(self.per_peer.entries[0].1)
                    } else {
                        None
                    }
                },
            },
        }
    }

    /// The keys to open a packet of `source` with, in the order in which they
    /// are tried: the peer's own, and where that is not the primary one, the
    /// primary one and the others, newest first, each once.
    pub open spec fn opening_keys(&self, source: Endpoint) -> Seq<KeyRef> {
        let b = self.bound(source);
        if b is Some && self.primary is Some && self.primary->0.id == b->0.id {
            seq![b->0]
        } else {
            let s = match self.primary {
                Some(p) => push_unique(listed(b), p),
                None => listed(b),
            };
            with_extras(s, self.extras@, self.extras@.len())
        }
    }

    pub fn keys_for_decrypt(&self, source: Endpoint) -> (out: Vec<KeyRef>)
        requires
            self.wf(),
        ensures
            out@ == self.opening_keys(source),
    {
        let mut out: Vec<KeyRef> = Vec::new();
        proof {
            assert(out@ =~= listed(None));
        }
        if let Some(bound) = self.key_for_peer(source) {
            out.push(bound);
            proof {
                assert(out@ =~= seq![bound]);
            }
            if let Some(p) = self.primary {
                if p.id == bound.id {
                    return out;
                }
            }
        }
        if let Some(p) = self.primary {
            push_if_new(&mut out, p);
        }
        let ghost start = out@;
        let mut n: usize = self.extras.len();
        while n > 0
            invariant
                n <= self.extras@.len(),
                with_extras(start, self.extras@, self.extras@.len()) == with_extras(
                    out@,
                    self.extras@,
                    n as nat,
                ),
            decreases n,
        {
            n = n - 1;
            let k: KeyRef = self.extras[n];
            push_if_new(&mut out, k);
        }
        out
    }

    pub fn clear(&mut self)
        ensures
            final(self).wf(),
            final(self).primary is None,
            final(self).extras@.len() == 0,
            final(self).per_peer@ == Map::<Endpoint, KeyRef>::empty(),
            final(self).next_id == old(self).next_id,
            !final(self).any(),
    {
        self.primary = None;
        self.extras.clear();
        self.per_peer.clear();
    }
}

/// Appends `k` unless its number is there.
fn push_if_new(out: &mut Vec<KeyRef>, k: KeyRef)
    ensures
        final(out)@ == push_unique(old(out)@, k),
{
    let mut i: usize = 0;
    while i < out.len()
        invariant
            i <= out@.len(),
            out@ == old(out)@,
            forall|j: int| 0 <= j < i ==> (#[trigger] out@[j]).id != k.id,
        decreases out@.len() - i,
    {
        if out[i].id == k.id {
            proof {
                assert(out@[i as int].id == k.id);
            }
            return;
        }
        i += 1;
    }
    out.push(k);
}

/// No key is tried twice.
pub proof fn opening_keys_distinct(pool: CryptoPool, source: Endpoint)
    ensures
        distinct_ids(pool.opening_keys(source)),
{
    let b = pool.bound(source);
    if !(b is Some && pool.primary is Some && pool.primary->0.id == b->0.id) {
        let s = match pool.primary {
            Some(p) => push_unique(listed(b), p),
            None => listed(b),
        };
        assert(distinct_ids(s)) by {
            if pool.primary is Some && b is Some {
                assert(listed(b)[0] == b->0);
            }
        }
        with_extras_distinct(s, pool.extras@, pool.extras@.len());
    }
}

proof fn with_extras_distinct(s: Seq<KeyRef>, extras: Seq<KeyRef>, n: nat)
    requires
        distinct_ids(s),
    ensures
        distinct_ids(with_extras(s, extras, n)),
    decreases n,
{
    if n > 0 {
        let k = extras[n - 1];
        let t = push_unique(s, k);
        assert forall|i: int, j: int| 0 <= i < j < t.len() implies (#[trigger] t[i]).id != (
        #[trigger] t[j]).id by {
            if j == s.len() {
                assert(!has_id(s, k.id));
                assert(s[i].id != k.id);
            }
        }
        with_extras_distinct(t, extras, (n - 1) as nat);
    }
}

/// The peer's own key is tried first.
pub proof fn bound_key_tried_first(pool: CryptoPool, source: Endpoint)
    requires
        pool.bound(source) is Some,
    ensures
        pool.opening_keys(source).len() > 0,
        pool.opening_keys(source)[0] == pool.bound(source)->0,
{
    let b = pool.bound(source);
    if !(pool.primary is Some && pool.primary->0.id == b->0.id) {
        let s = match pool.primary {
            Some(p) => push_unique(listed(b), p),
            None => listed(b),
        };
        with_extras_keeps_head(s, pool.extras@, pool.extras@.len());
    }
}

proof fn with_extras_keeps_head(s: Seq<KeyRef>, extras: Seq<KeyRef>, n: nat)
    requires
        s.len() > 0,
    ensures
        with_extras(s, extras, n).len() > 0,
        with_extras(s, extras, n)[0] == s[0],
    decreases n,
{
    if n > 0 {
        with_extras_keeps_head(push_unique(s, extras[n - 1]), extras, (n - 1) as nat);
    }
}

} // verus!
