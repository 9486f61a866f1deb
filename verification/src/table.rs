//! A map that keeps its entries in the order of their first insertion.

use crate::addr::Endpoint;
use vstd::prelude::*;

verus! {

/// What can be a key of a [`Table`].
pub trait Key: Sized {
    type Id;

    /// What two equal keys have in common.
    spec fn id(&self) -> Self::Id;

    fn same(&self, other: &Self) -> (r: bool)
        ensures
            r == (self.id() == other.id()),
    ;
}

impl Key for String {
    type Id = Seq<char>;

    open spec fn id(&self) -> Seq<char> {
        self@
    }

    fn same(&self, other: &Self) -> (r: bool) {
        *self == *other
    }
}

impl Key for Endpoint {
    type Id = Endpoint;

    open spec fn id(&self) -> Endpoint {
        *self
    }

    fn same(&self, other: &Self) -> (r: bool) {
        *self == *other
    }
}

impl Key for u32 {
    type Id = u32;

    open spec fn id(&self) -> u32 {
        *self
    }

    fn same(&self, other: &Self) -> (r: bool) {
        *self == *other
    }
}

impl Key for u64 {
    type Id = u64;

    open spec fn id(&self) -> u64 {
        *self
    }

    fn same(&self, other: &Self) -> (r: bool) {
        *self == *other
    }
}

/// A map from keys to values. Its entries stand in the order in which their
/// keys came in.
pub struct Table<K: Key, V> {
    pub entries: Vec<(K, V)>,
}

/// No key occurs twice.
pub open spec fn distinct_keys<K: Key, V>(s: Seq<(K, V)>) -> bool {
    forall|i: int, j: int|
        0 <= i < j < s.len() ==> (#[trigger] s[i]).0.id() != (#[trigger] s[j]).0.id()
}

/// The entry at `i` has the key `k`.
pub open spec fn key_at<K: Key, V>(s: Seq<(K, V)>, k: K::Id, i: int) -> bool {
    0 <= i < s.len() && s[i].0.id() == k
}

/// Some entry has the key `k`.
pub open spec fn has_key<K: Key, V>(s: Seq<(K, V)>, k: K::Id) -> bool {
    exists|i: int| key_at(s, k, i)
}

/// The map that a list of entries stands for.
pub open spec fn map_of<K: Key, V>(s: Seq<(K, V)>) -> Map<K::Id, V> {
    Map::new(|k: K::Id| has_key(s, k), |k: K::Id| s[choose|i: int| key_at(s, k, i)].1)
}

/// What [`map_of`] says of the entry at `i`.
pub proof fn map_of_at<K: Key, V>(s: Seq<(K, V)>, i: int)
    requires
        distinct_keys(s),
        0 <= i < s.len(),
    ensures
        map_of(s).dom().contains(s[i].0.id()),
        map_of(s)[s[i].0.id()] == s[i].1,
{
    let k = s[i].0.id();
    assert(key_at(s, k, i));
    let j = choose|j: int| key_at(s, k, j);
    assert(key_at(s, k, j));
    if j < i {
        assert(s[j].0.id() != s[i].0.id());
    }
    if i < j {
        assert(s[i].0.id() != s[j].0.id());
    }
}

/// Appending an entry with a new key inserts it.
pub proof fn map_of_push<K: Key, V>(s: Seq<(K, V)>, k: K, v: V)
    requires
        distinct_keys(s),
        !has_key(s, k.id()),
    ensures
        distinct_keys(s.push((k, v))),
        map_of(s.push((k, v))) == map_of(s).insert(k.id(), v),
{
    let t = s.push((k, v));
    assert forall|i: int, j: int| 0 <= i < j < t.len() implies (#[trigger] t[i]).0.id() != (
    #[trigger] t[j]).0.id() by {
        if j == s.len() {
            assert(!key_at(s, k.id(), i));
        }
    }
    assert forall|x: K::Id| map_of(t).dom().contains(x) <==> map_of(s).insert(
        k.id(),
        v,
    ).dom().contains(x) by {
        if has_key(s, x) {
            let i = choose|i: int| key_at(s, x, i);
            assert(key_at(t, x, i));
        }
        if x == k.id() {
            assert(key_at(t, x, s.len() as int));
        }
        if has_key(t, x) {
            let i = choose|i: int| key_at(t, x, i);
            if i < s.len() {
                assert(key_at(s, x, i));
            }
        }
    }
    assert forall|x: K::Id| map_of(t).dom().contains(x) implies map_of(t)[x] == map_of(s).insert(
        k.id(),
        v,
    )[x] by {
        let i = choose|i: int| key_at(t, x, i);
        map_of_at(t, i);
        if i < s.len() {
            map_of_at(s, i);
            assert(!key_at(s, k.id(), i));
        }
    }
    assert(map_of(t) =~= map_of(s).insert(k.id(), v));
}

/// Changing the value of an entry overwrites it.
pub proof fn map_of_update<K: Key, V>(s: Seq<(K, V)>, i: int, e: (K, V))
    requires
        distinct_keys(s),
        0 <= i < s.len(),
        e.0.id() == s[i].0.id(),
    ensures
        distinct_keys(s.update(i, e)),
        map_of(s.update(i, e)) == map_of(s).insert(e.0.id(), e.1),
{
    let t = s.update(i, e);
    let k = e.0.id();
    assert forall|a: int, b: int| 0 <= a < b < t.len() implies (#[trigger] t[a]).0.id() != (
    #[trigger] t[b]).0.id() by {
        assert(s[a].0.id() != s[b].0.id());
    }
    assert forall|x: K::Id| map_of(t).dom().contains(x) <==> map_of(s).insert(
        k,
        e.1,
    ).dom().contains(x) by {
        if has_key(s, x) {
            let j = choose|j: int| key_at(s, x, j);
            assert(key_at(t, x, j));
        }
        if has_key(t, x) {
            let j = choose|j: int| key_at(t, x, j);
            assert(key_at(s, x, j));
        }
        if x == k {
            assert(key_at(t, x, i));
        }
    }
    assert forall|x: K::Id| map_of(t).dom().contains(x) implies map_of(t)[x] == map_of(s).insert(
        k,
        e.1,
    )[x] by {
        let j = choose|j: int| key_at(t, x, j);
        map_of_at(t, j);
        map_of_at(s, j);
        if j != i {
            if j < i {
                assert(t[j].0.id() != t[i].0.id());
            } else {
                assert(t[i].0.id() != t[j].0.id());
            }
        }
    }
    assert(map_of(t) =~= map_of(s).insert(k, e.1));
}

/// Taking an entry out removes its key.
pub proof fn map_of_remove<K: Key, V>(s: Seq<(K, V)>, i: int)
    requires
        distinct_keys(s),
        0 <= i < s.len(),
    ensures
        distinct_keys(s.remove(i)),
        map_of(s.remove(i)) == map_of(s).remove(s[i].0.id()),
{
    let t = s.remove(i);
    let k = s[i].0.id();
    assert forall|a: int, b: int| 0 <= a < b < t.len() implies (#[trigger] t[a]).0.id() != (
    #[trigger] t[b]).0.id() by {
        let x = if a < i { a } else { a + 1 };
        let y = if b < i { b } else { b + 1 };
        assert(s[x].0.id() != s[y].0.id());
    }
    assert forall|x: K::Id| map_of(t).dom().contains(x) <==> map_of(s).remove(
        k,
    ).dom().contains(x) by {
        if has_key(s, x) && x != k {
            let j = choose|j: int| key_at(s, x, j);
            assert(key_at(t, x, if j < i { j } else { j - 1 }));
        }
        if has_key(t, x) {
            let j = choose|j: int| key_at(t, x, j);
            let y = if j < i { j } else { j + 1 };
            assert(key_at(s, x, y));
            if y < i {
                assert(s[y].0.id() != s[i].0.id());
            } else {
                assert(s[i].0.id() != s[y].0.id());
            }
        }
    }
    assert forall|x: K::Id| map_of(t).dom().contains(x) implies map_of(t)[x] == map_of(s).remove(
        k,
    )[x] by {
        let j = choose|j: int| key_at(t, x, j);
        let y = if j < i { j } else { j + 1 };
        map_of_at(t, j);
        map_of_at(s, y);
    }
    assert(map_of(t) =~= map_of(s).remove(k));
}

/// The map has as many keys as the list has entries.
pub proof fn map_of_len<K: Key, V>(s: Seq<(K, V)>)
    requires
        distinct_keys(s),
    ensures
        map_of(s).dom().finite(),
        map_of(s).dom().len() == s.len(),
    decreases s.len(),
{
    if s.len() == 0 {
        assert forall|k: K::Id| !map_of(s).dom().contains(k) by {
            if has_key(s, k) {
                let i = choose|i: int| key_at(s, k, i);
                assert(false);
            }
        }
        assert(map_of(s).dom() =~= Set::empty());
    } else {
        let i = s.len() - 1;
        map_of_at(s, i);
        map_of_remove(s, i);
        map_of_len(s.remove(i));
        assert(map_of(s).remove(s[i].0.id()).dom() =~= map_of(s).dom().remove(s[i].0.id()));
        assert(map_of(s).dom() =~= map_of(s).dom().remove(s[i].0.id()).insert(s[i].0.id()));
    }
}

/// Keeping the entries that `p` holds of keeps their keys and values.
pub proof fn map_of_filter<K: Key, V>(s: Seq<(K, V)>, p: spec_fn((K, V)) -> bool)
    requires
        distinct_keys(s),
    ensures
        distinct_keys(s.filter(p)),
        forall|k: K::Id| #[trigger]
            has_key(s.filter(p), k) <==> (exists|i: int| #[trigger] key_at(s, k, i) && p(s[i])),
        forall|k: K::Id| #[trigger]
            map_of(s.filter(p)).dom().contains(k) ==> map_of(s).dom().contains(k) && map_of(
                s.filter(p),
            )[k] == map_of(s)[k],
    decreases s.len(),
{
    reveal(Seq::filter);
    if s.len() > 0 {
        let r = s.drop_last();
        let e = s.last();
        assert(distinct_keys(r)) by {
            assert forall|i: int, j: int| 0 <= i < j < r.len() implies (#[trigger] r[i]).0.id() != (
            #[trigger] r[j]).0.id() by {
                assert(s[i].0.id() != s[j].0.id());
            }
        }
        map_of_filter(r, p);
        let f = r.filter(p);
        let g = s.filter(p);
        assert(s =~= r.push(e));
        assert(!has_key(r, e.0.id())) by {
            if has_key(r, e.0.id()) {
                let i = choose|i: int| key_at(r, e.0.id(), i);
                assert(s[i].0.id() != s[s.len() - 1].0.id());
            }
        }
        assert(!has_key(f, e.0.id())) by {
            if has_key(f, e.0.id()) {
                let i = choose|i: int| #[trigger] key_at(r, e.0.id(), i) && p(r[i]);
                assert(key_at(r, e.0.id(), i));
            }
        }
        map_of_push(r, e.0, e.1);
        if p(e) {
            assert(g =~= f.push(e));
            map_of_push(f, e.0, e.1);
        } else {
            assert(g =~= f);
        }
        assert forall|k: K::Id| #[trigger] has_key(g, k) <==> (exists|i: int| #[trigger]
            key_at(s, k, i) && p(s[i])) by {
            if has_key(g, k) {
                if p(e) && k == e.0.id() {
                    assert(key_at(s, k, s.len() - 1) && p(s[s.len() - 1]));
                } else {
                    assert(map_of(g).dom().contains(k));
                    assert(has_key(f, k));
                    let i = choose|i: int| #[trigger] key_at(r, k, i) && p(r[i]);
                    assert(key_at(s, k, i) && p(s[i]));
                }
            }
            if exists|i: int| #[trigger] key_at(s, k, i) && p(s[i]) {
                let i = choose|i: int| #[trigger] key_at(s, k, i) && p(s[i]);
                if i < r.len() {
                    assert(key_at(r, k, i) && p(r[i]));
                    assert(has_key(f, k));
                    assert(map_of(f).dom().contains(k));
                    assert(map_of(g).dom().contains(k));
                } else {
                    assert(map_of(g).dom().contains(k));
                }
            }
        }
        assert forall|k: K::Id| #[trigger] map_of(g).dom().contains(k) implies map_of(
            s,
        ).dom().contains(k) && map_of(g)[k] == map_of(s)[k] by {
            if p(e) && k == e.0.id() {
            } else {
                assert(map_of(f).dom().contains(k));
            }
        }
    } else {
        assert(s.filter(p) =~= s);
    }
}

impl<K: Key, V> View for Table<K, V> {
    type V = Map<K::Id, V>;

    open spec fn view(&self) -> Map<K::Id, V> {
        map_of(self.entries@)
    }
}

impl<K: Key, V> Table<K, V> {
    /// No key occurs twice.
    pub open spec fn wf(&self) -> bool {
        distinct_keys(self.entries@)
    }

    pub fn new() -> (out: Self)
        ensures
            out.wf(),
            out.entries@.len() == 0,
            out@ == Map::<K::Id, V>::empty(),
    {
        let out = Table { entries: Vec::new() };
        proof {
            map_of_len(out.entries@);
            assert(out@ =~= Map::<K::Id, V>::empty());
        }
        out
    }

    pub fn len(&self) -> (n: usize)
        requires
            self.wf(),
        ensures
            n == self.entries@.len(),
            n == self@.dom().len(),
    {
        proof {
            map_of_len(self.entries@);
        }
        self.entries.len()
    }

    pub fn is_empty(&self) -> (b: bool)
        requires
            self.wf(),
        ensures
            b == (self.entries@.len() == 0),
            b == (self@.dom().len() == 0),
    {
        proof {
            map_of_len(self.entries@);
        }
        self.entries.len() == 0
    }

    /// The place of the entry for `k`.
    pub fn find(&self, k: &K) -> (out: Option<usize>)
        requires
            self.wf(),
        ensures
            out is None ==> !self@.dom().contains(k.id()),
            match out {
                None => !has_key(self.entries@, k.id()),
                Some(i) => i < self.entries@.len() && self.entries@[i as int].0.id() == k.id()
                    && self@.dom().contains(k.id()) && self@[k.id()] == self.entries@[i as int].1,
            },
    {
        let mut i: usize = 0;
        while i < self.entries.len()
            invariant
                i <= self.entries@.len(),
                self.wf(),
                forall|j: int| 0 <= j < i ==> (#[trigger] self.entries@[j]).0.id() != k.id(),
            decreases self.entries@.len() - i,
        {
            if self.entries[i].0.same(k) {
                proof {
                    map_of_at(self.entries@, i as int);
                }
                return Some(i);
            }
            i += 1;
        }
        proof {
            assert forall|j: int| !key_at(self.entries@, k.id(), j) by {
                if 0 <= j < self.entries@.len() {
                    assert(self.entries@[j].0.id() != k.id());
                }
            }
        }
        None
    }

    pub fn contains_key(&self, k: &K) -> (b: bool)
        requires
            self.wf(),
        ensures
            b == self@.dom().contains(k.id()),
    {
        self.find(k).is_some()
    }

    pub fn get(&self, k: &K) -> (out: Option<&V>)
        requires
            self.wf(),
        ensures
            match out {
                None => !self@.dom().contains(k.id()),
                Some(v) => self@.dom().contains(k.id()) && self@[k.id()] == *v,
            },
    {
        match self.find(k) {
            None => None,
            Some(i) => Some(&self.entries[i].1),
        }
    }

    /// Puts `v` under `k`. A key that is there keeps its place.
    pub fn insert(&mut self, k: K, v: V)
        requires
            old(self).wf(),
        ensures
            final(self).wf(),
            final(self)@ == old(self)@.insert(k.id(), v),
            old(self)@.dom().contains(k.id()) ==> final(self).entries@.len() == old(self).entries@.len(),
            !old(self)@.dom().contains(k.id()) ==> final(self).entries@ == old(self).entries@.push(
                (k, v),
            ),
    {
        match self.find(&k) {
            Some(i) => {
                proof {
                    map_of_update(self.entries@, i as int, (k, v));
                }
                self.entries.set(i, (k, v));
            },
            None => {
                proof {
                    map_of_push(self.entries@, k, v);
                }
                self.entries.push((k, v));
            },
        }
    }

    /// Takes `k` out. The other entries keep their order.
    pub fn remove(&mut self, k: &K) -> (out: Option<V>)
        requires
            old(self).wf(),
        ensures
            final(self).wf(),
            final(self)@ == old(self)@.remove(k.id()),
            match out {
                None => !old(self)@.dom().contains(k.id()) && *final(self) == *old(self),
                Some(v) => old(self)@.dom().contains(k.id()) && old(self)@[k.id()] == v,
            },
    {
        match self.find(k) {
            Some(i) => {
                proof {
                    map_of_remove(self.entries@, i as int);
                }
                let (_, v) = self.entries.remove(i);
                Some(v)
            },
            None => {
                proof {
                    assert(self@.remove(k.id()) =~= self@);
                }
                None
            },
        }
    }

    /// Keeps the entries that `f`, and so `p`, holds of.
    pub(crate) fn retain_where<F: Fn(&K, &V) -> bool>(
        &mut self,
        f: F,
        Ghost(p): Ghost<spec_fn((K, V)) -> bool>,
    )
        requires
            old(self).wf(),
            forall|k: K, v: V| #[trigger] call_requires(f, (&k, &v)),
            forall|k: K, v: V, b: bool| #[trigger]
                call_ensures(f, (&k, &v), b) ==> b == p((k, v)),
        ensures
            final(self).wf(),
            final(self).entries@ == old(self).entries@.filter(p),
    {
        let ghost all = self.entries@;
        let mut kept: Vec<(K, V)> = Vec::new();
        let mut rest: Vec<(K, V)> = Vec::new();
        rest.append(&mut self.entries);
        let ghost mut n: int = 0;
        proof {
            reveal(Seq::filter);
            assert(all.take(0) =~= Seq::<(K, V)>::empty());
            assert(all.skip(0) =~= all);
            assert(rest@ =~= all);
        }
        while rest.len() > 0
            invariant
                0 <= n <= all.len(),
                rest@ == all.skip(n),
                kept@ == all.take(n).filter(p),
                forall|k: K, v: V| #[trigger] call_requires(f, (&k, &v)),
                forall|k: K, v: V, b: bool| #[trigger]
                    call_ensures(f, (&k, &v), b) ==> b == p((k, v)),
            decreases rest.len(),
        {
            let e = rest.remove(0);
            proof {
                reveal(Seq::filter);
                assert(e == all[n]);
                assert(all.take(n + 1).drop_last() =~= all.take(n));
                assert(all.take(n + 1).last() == e);
                assert(rest@ =~= all.skip(n + 1));
                n = n + 1;
            }
            if f(&e.0, &e.1) {
                kept.push(e);
            }
        }
        proof {
            assert(all.take(n) =~= all);
            map_of_filter(all, p);
        }
        self.entries = kept;
    }

    pub fn clear(&mut self)
        ensures
            final(self).wf(),
            final(self).entries@.len() == 0,
            final(self)@ == Map::<K::Id, V>::empty(),
    {
        self.entries.clear();
        proof {
            map_of_len(self.entries@);
            assert(self@ =~= Map::<K::Id, V>::empty());
        }
    }
}

/// A set of strings.
pub struct NameSet {
    pub names: Table<String, ()>,
}

impl View for NameSet {
    type V = Set<Seq<char>>;

    open spec fn view(&self) -> Set<Seq<char>> {
        self.names@.dom()
    }
}

impl NameSet {
    pub open spec fn wf(&self) -> bool {
        self.names.wf()
    }

    pub fn new() -> (out: Self)
        ensures
            out.wf(),
            out@ == Set::<Seq<char>>::empty(),
    {
        let out = NameSet { names: Table::new() };
        proof {
            assert(out@ =~= Set::<Seq<char>>::empty());
        }
        out
    }

    pub fn len(&self) -> (n: usize)
        requires
            self.wf(),
        ensures
            n == self@.len(),
    {
        self.names.len()
    }

    pub fn is_empty(&self) -> (b: bool)
        requires
            self.wf(),
        ensures
            b == (self@ == Set::<Seq<char>>::empty()),
    {
        let b = self.names.is_empty();
        proof {
            map_of_len(self.names.entries@);
            if b {
                assert(self@ =~= Set::<Seq<char>>::empty());
            }
        }
        b
    }

    pub fn contains(&self, k: &String) -> (b: bool)
        requires
            self.wf(),
        ensures
            b == self@.contains(k@),
    {
        self.names.contains_key(k)
    }

    /// Adds all names of `other`.
    pub fn add_all(&mut self, other: &NameSet)
        requires
            old(self).wf(),
            other.wf(),
        ensures
            final(self).wf(),
            final(self)@ == old(self)@.union(other@),
    {
        let ghost s = other.names.entries@;
        let ghost o = self@;
        let mut i: usize = 0;
        while i < other.names.entries.len()
            invariant
                s == other.names.entries@,
                i <= s.len(),
                self.wf(),
                forall|v: Seq<char>| #[trigger]
                    self@.contains(v) <==> o.contains(v) || exists|j: int|
                        0 <= j < i && (#[trigger] s[j]).0@ == v,
            decreases s.len() - i,
        {
            let ghost before = self@;
            let _ = self.insert(other.names.entries[i].0.clone());
            proof {
                assert forall|v: Seq<char>| #[trigger] self@.contains(v) <==> o.contains(v)
                    || exists|j: int| 0 <= j < i + 1 && (#[trigger] s[j]).0@ == v by {
                    if before.contains(v) && !o.contains(v) {
                        let j = choose|j: int| 0 <= j < i && (#[trigger] s[j]).0@ == v;
                        assert(s[j].0@ == v);
                    }
                    if v == s[i as int].0@ {
                        assert(s[i as int].0@ == v);
                    }
                }
            }
            i += 1;
        }
        proof {
            assert forall|v: Seq<char>| #[trigger] self@.contains(v) <==> o.union(
                other@,
            ).contains(v) by {
                if exists|j: int| 0 <= j < s.len() && (#[trigger] s[j]).0@ == v {
                    let j = choose|j: int| 0 <= j < s.len() && (#[trigger] s[j]).0@ == v;
                    map_of_at(s, j);
                }
                if other@.contains(v) {
                    let j = choose|j: int| key_at(s, v, j);
                    assert(s[j].0@ == v);
                }
            }
            assert(self@ =~= o.union(other@));
        }
    }

    /// Adds `k`; tells whether it was new.
    pub fn insert(&mut self, k: String) -> (fresh: bool)
        requires
            old(self).wf(),
        ensures
            final(self).wf(),
            final(self)@ == old(self)@.insert(k@),
            fresh == !old(self)@.contains(k@),
    {
        if self.names.contains_key(&k) {
            proof {
                assert(self@.insert(k@) =~= self@);
            }
            false
        } else {
            let ghost before = self@;
            let ghost key = k@;
            self.names.insert(k, ());
            proof {
                assert(self@ =~= before.insert(key));
            }
            true
        }
    }

    /// Takes `k` out; tells whether it was there.
    pub fn remove(&mut self, k: &String) -> (was: bool)
        requires
            old(self).wf(),
        ensures
            final(self).wf(),
            final(self)@ == old(self)@.remove(k@),
            was == old(self)@.contains(k@),
    {
        let ghost before = self@;
        let out = self.names.remove(k);
        proof {
            assert(self@ =~= before.remove(k@));
        }
        out.is_some()
    }

    pub fn clear(&mut self)
        ensures
            final(self).wf(),
            final(self)@ == Set::<Seq<char>>::empty(),
    {
        self.names.clear();
        proof {
            assert(self@ =~= Set::<Seq<char>>::empty());
        }
    }
}

} // verus!
