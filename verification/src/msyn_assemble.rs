//! How a peer puts the parts of a sync together again.

use crate::addr::Endpoint;
use crate::engine_data;
use crate::engine_routes;
use crate::engine_routes::{MsynApply, MsynRoute};
use crate::engine_state;
use crate::engine_state::{since, EngineState};
use crate::msyn_sync;
use crate::msyn_sync::{MSYN_ASSEMBLE_MAX_PARTS_TOTAL, MSYN_PROTO_VER, MSYN_SCHEMA_VER};
use crate::routing;
use crate::table;
use crate::table::{Key, Table};
use vstd::prelude::*;

verus! {

/// How many incomplete syncs of one sender are kept at most.
pub const MSYN_ASSEMBLE_MAX_BUFFERS_PER_FROM: usize = 8;

/// How long an incomplete sync is kept, in milliseconds.
pub const MSYN_ASSEMBLE_TTL_MS: u64 = 30_000;

/// A part of a sync as it was read; a number that was missing is none.
pub struct MsynPart {
    pub proto_ver: Option<u64>,
    pub schema_ver: Option<u64>,
    pub sync_id: Option<u64>,
    pub from_rev: Option<u64>,
    pub to_rev: Option<u64>,
    pub part_idx: Option<u64>,
    pub parts_total: Option<u64>,
    pub routes: Vec<MsynRoute>,
    pub removed: Vec<String>,
}

/// What a part holds.
pub struct MsynPartPayload {
    pub routes: Vec<MsynRoute>,
    pub removed: Vec<String>,
}

/// What a part holds.
pub ghost struct PayloadView {
    pub routes: Seq<engine_routes::MsynRouteView>,
    pub removed: Seq<Seq<char>>,
}

/// The routes of a list.
pub open spec fn route_views(v: Seq<MsynRoute>) -> Seq<engine_routes::MsynRouteView> {
    Seq::new(v.len(), |i: int| v[i]@)
}

impl View for MsynPartPayload {
    type V = PayloadView;

    open spec fn view(&self) -> PayloadView {
        PayloadView {
            routes: route_views(self.routes@),
            removed: engine_data::names(self.removed@),
        }
    }
}

/// A sync of which some parts are missing.
pub struct PartialMsyn {
    pub sync_id: u64,
    pub from_rev: u64,
    pub to_rev: u64,
    pub parts_total: u32,
    pub parts: Table<u32, MsynPartPayload>,
    /// When its first part came, in milliseconds.
    pub first_seen: u64,
}

/// A sync of which some parts are missing.
#[verifier::ext_equal]
pub ghost struct PartialView {
    pub sync_id: u64,
    pub from_rev: u64,
    pub to_rev: u64,
    pub parts_total: u32,
    pub parts: Map<u32, PayloadView>,
    pub first_seen: u64,
}

impl View for PartialMsyn {
    type V = PartialView;

    open spec fn view(&self) -> PartialView {
        PartialView {
            sync_id: self.sync_id,
            from_rev: self.from_rev,
            to_rev: self.to_rev,
            parts_total: self.parts_total,
            parts: self.parts@.map_values(|p: MsynPartPayload| p@),
            first_seen: self.first_seen,
        }
    }
}

/// The removals of the parts below `n`, in order.
pub open spec fn removed_upto(parts: Map<u32, PayloadView>, n: nat) -> Seq<Seq<char>>
    decreases n,
{
    if n == 0 {
        Seq::empty()
    } else {
        let rest = removed_upto(parts, (n - 1) as nat);
        if parts.dom().contains((n - 1) as u32) {
            rest + parts[(n - 1) as u32].removed
        } else {
            rest
        }
    }
}

/// The routes of the parts below `n`, in order.
pub open spec fn routes_upto(parts: Map<u32, PayloadView>, n: nat) -> Seq<
    engine_routes::MsynRouteView,
>
    decreases n,
{
    if n == 0 {
        Seq::empty()
    } else {
        let rest = routes_upto(parts, (n - 1) as nat);
        if parts.dom().contains((n - 1) as u32) {
            rest + parts[(n - 1) as u32].routes
        } else {
            rest
        }
    }
}

impl MsynRoute {
    /// A copy.
    fn dup(&self) -> (out: Self)
        ensures
            out@ == self@,
    {
        MsynRoute { vip: self.vip.clone(), ep: self.ep, node_id: self.node_id.clone() }
    }
}

impl PartialMsyn {
    pub open spec fn wf(&self) -> bool {
        &&& self.parts.wf()
        &&& forall|i: u32| #[trigger] self.parts@.dom().contains(i) ==> i < self.parts_total
    }

    /// No part is missing.
    pub fn is_complete(&self) -> (b: bool)
        requires
            self.wf(),
        ensures
            b == (self.parts_total > 0 && self.parts@.dom().len() == self.parts_total),
            b ==> forall|i: u32| i < self.parts_total ==> #[trigger] self.parts@.dom().contains(i),
    {
        let n: usize = self.parts.len();
        let b: bool = self.parts_total > 0 && n == self.parts_total as usize;
        proof {
            table::map_of_len(self.parts.entries@);
            if b {
                all_parts_there(self.parts@.dom(), self.parts_total);
            }
        }
        b
    }

    /// All removals and all routes, in the order of the parts.
    pub fn assemble_removed_then_routes(&self) -> (out: (Vec<String>, Vec<MsynRoute>))
        requires
            self.wf(),
        ensures
            engine_data::names(out.0@) == removed_upto(self@.parts, self.parts_total as nat),
            route_views(out.1@) == routes_upto(self@.parts, self.parts_total as nat),
    {
        let mut removed: Vec<String> = Vec::new();
        let mut routes: Vec<MsynRoute> = Vec::new();
        let mut idx: u32 = 0;
        proof {
            assert(engine_data::names(removed@) =~= Seq::empty());
            assert(route_views(routes@) =~= Seq::empty());
        }
        while idx < self.parts_total
            invariant
                self.wf(),
                idx <= self.parts_total,
                engine_data::names(removed@) == removed_upto(self@.parts, idx as nat),
                route_views(routes@) == routes_upto(self@.parts, idx as nat),
            decreases self.parts_total - idx,
        {
            if let Some(p) = self.parts.get(&idx) {
                append_names(&mut removed, &p.removed);
                append_routes(&mut routes, &p.routes);
            }
            idx += 1;
        }
        (removed, routes)
    }
}

/// Numbers below `n`, as many as `n`, are all numbers below `n`.
proof fn all_parts_there(s: Set<u32>, n: u32)
    requires
        s.finite(),
        s.len() == n,
        forall|i: u32| #[trigger] s.contains(i) ==> i < n,
    ensures
        forall|i: u32| i < n ==> #[trigger] s.contains(i),
    decreases n,
{
    if n > 0 {
        let last = (n - 1) as u32;
        if s.contains(last) {
            let t = s.remove(last);
            assert forall|i: u32| #[trigger] t.contains(i) implies i < last by {}
            all_parts_there(t, last);
            assert forall|i: u32| i < n implies #[trigger] s.contains(i) by {
                if i < last {
                    assert(t.contains(i));
                }
            }
        } else {
            let big = below(last as nat);
            below_len(last as nat);
            assert(s.subset_of(big)) by {
                assert forall|i: u32| #[trigger] s.contains(i) implies big.contains(i) by {
                    assert(i < n);
                    if i == last {
                        assert(s.contains(last));
                    }
                }
            }
            vstd::set_lib::lemma_len_subset(s, big);
        }
    }
}

/// The numbers below `n`.
spec fn below(n: nat) -> Set<u32> {
    Set::new(|i: u32| i < n)
}

proof fn below_len(n: nat)
    requires
        n <= u32::MAX,
    ensures
        below(n).finite(),
        below(n).len() == n,
    decreases n,
{
    if n == 0 {
        assert(below(n) =~= Set::empty());
    } else {
        below_len((n - 1) as nat);
        assert(below(n) =~= below((n - 1) as nat).insert((n - 1) as u32));
    }
}

fn append_names(out: &mut Vec<String>, more: &Vec<String>)
    ensures
        engine_data::names(final(out)@) == engine_data::names(old(out)@) + engine_data::names(
            more@,
        ),
{
    let ghost o0 = engine_data::names(out@);
    let ghost m = engine_data::names(more@);
    let mut i: usize = 0;
    proof {
        assert(o0 + m.take(0) =~= o0);
    }
    while i < more.len()
        invariant
            i <= more@.len(),
            m == engine_data::names(more@),
            engine_data::names(out@) == o0 + m.take(i as int),
        decreases more@.len() - i,
    {
        let ghost before = engine_data::names(out@);
        out.push(more[i].clone());
        proof {
            assert(engine_data::names(out@) =~= before.push(m[i as int]));
            assert(o0 + m.take(i + 1) =~= (o0 + m.take(i as int)).push(m[i as int]));
        }
        i += 1;
    }
    proof {
        assert(m.take(m.len() as int) =~= m);
    }
}

fn append_routes(out: &mut Vec<MsynRoute>, more: &Vec<MsynRoute>)
    ensures
        route_views(final(out)@) == route_views(old(out)@) + route_views(more@),
{
    let ghost o0 = route_views(out@);
    let ghost m = route_views(more@);
    let mut i: usize = 0;
    proof {
        assert(o0 + m.take(0) =~= o0);
    }
    while i < more.len()
        invariant
            i <= more@.len(),
            m == route_views(more@),
            route_views(out@) == o0 + m.take(i as int),
        decreases more@.len() - i,
    {
        let ghost before = route_views(out@);
        out.push(more[i].dup());
        proof {
            assert(route_views(out@) =~= before.push(m[i as int]));
            assert(o0 + m.take(i + 1) =~= (o0 + m.take(i as int)).push(m[i as int]));
        }
        i += 1;
    }
    proof {
        assert(m.take(m.len() as int) =~= m);
    }
}

/// By what incomplete syncs are told apart: their sender and their number.
#[derive(Clone, Copy, Debug, PartialEq, Eq, Hash, Structural)]
pub struct AssembleKey {
    pub from: Endpoint,
    pub sync_id: u64,
}

impl Key for AssembleKey {
    type Id = AssembleKey;

    open spec fn id(&self) -> AssembleKey {
        *self
    }

    fn same(&self, other: &Self) -> (r: bool) {
        *self == *other
    }
}

/// The incomplete syncs.
pub struct MsynAssembleMap {
    pub bufs: Table<AssembleKey, PartialMsyn>,
}

/// What became of a part.
pub enum MsynIngestOutcome {
    Ignored,
    /// Parts are missing still; `first_part` tells that it is the first one.
    Buffered { first_part: bool },
    Complete(PartialMsyn),
}

/// The incomplete syncs.
pub open spec fn bufs_view(m: Map<AssembleKey, PartialMsyn>) -> Map<AssembleKey, PartialView> {
    m.map_values(|p: PartialMsyn| p@)
}

/// The incomplete syncs that are not too old.
pub open spec fn swept(m: Map<AssembleKey, PartialView>, now: u64) -> Map<AssembleKey, PartialView> {
    m.restrict(
        Set::new(
            |k: AssembleKey|
                m.dom().contains(k) && engine_state::elapsed(now, m[k].first_seen)
                    < MSYN_ASSEMBLE_TTL_MS,
        ),
    )
}

/// The incomplete syncs without those of the sender that a sync up to `to_rev`
/// makes needless.
pub open spec fn superseded(
    m: Map<AssembleKey, PartialView>,
    from: Endpoint,
    sync_id: u64,
    to_rev: u64,
) -> Map<AssembleKey, PartialView> {
    m.restrict(
        Set::new(
            |k: AssembleKey|
                m.dom().contains(k) && !(k.from == from && k.sync_id != sync_id && m[k].to_rev
                    <= to_rev),
        ),
    )
}

/// The sender has begun a later sync.
pub open spec fn outrun(
    m: Map<AssembleKey, PartialView>,
    from: Endpoint,
    sync_id: u64,
    to_rev: u64,
) -> bool {
    exists|k: AssembleKey| #[trigger]
        m.dom().contains(k) && k.from == from && k.sync_id != sync_id && m[k].to_rev > to_rev
}

/// A part that can be used: it is of this version, its numbers make sense, and
/// its sync is newer than what was applied.
pub open spec fn part_valid(v: MsynPart, applied_to_rev: u64) -> bool {
    &&& v.proto_ver == Some(MSYN_PROTO_VER)
    &&& v.schema_ver == Some(MSYN_SCHEMA_VER)
    &&& v.sync_id is Some
    &&& v.from_rev is Some
    &&& v.to_rev is Some
    &&& v.part_idx is Some
    &&& v.parts_total is Some
    &&& 0 < v.parts_total->0 <= MSYN_ASSEMBLE_MAX_PARTS_TOTAL
    &&& v.part_idx->0 < v.parts_total->0
    &&& v.to_rev->0 > applied_to_rev
}

/// What the part holds.
pub open spec fn payload_of(v: MsynPart) -> PayloadView {
    PayloadView { routes: route_views(v.routes@), removed: engine_data::names(v.removed@) }
}

/// The part belongs to the sync `p`.
pub open spec fn same_envelope(p: PartialView, v: MsynPart) -> bool {
    p.parts_total == v.parts_total->0 && p.from_rev == v.from_rev->0 && p.to_rev == v.to_rev->0
}

/// The sync once the part is in.
pub open spec fn with_part(p: Option<PartialView>, v: MsynPart, now: u64) -> PartialView {
    let idx = v.part_idx->0 as u32;
    match p {
        Some(q) => PartialView { parts: q.parts.insert(idx, payload_of(v)), ..q },
        None => PartialView {
            sync_id: v.sync_id->0,
            from_rev: v.from_rev->0,
            to_rev: v.to_rev->0,
            parts_total: v.parts_total->0 as u32,
            parts: Map::<u32, PayloadView>::empty().insert(idx, payload_of(v)),
            first_seen: now,
        },
    }
}

/// What becomes of a part.
pub ghost enum Ingested {
    Ignored,
    Buffered { first_part: bool },
    Complete(PartialView),
}

/// What becomes of a part, and the incomplete syncs after it: those that are too
/// old are gone, and so are those that the sender has outrun.
pub open spec fn ingested(
    m: Map<AssembleKey, PartialView>,
    from: Endpoint,
    v: MsynPart,
    applied_to_rev: u64,
    now: u64,
) -> (Ingested, Map<AssembleKey, PartialView>) {
    let m1 = swept(m, now);
    if !part_valid(v, applied_to_rev) {
        (Ingested::Ignored, m1)
    } else {
        let key = AssembleKey { from, sync_id: v.sync_id->0 };
        let m2 = superseded(m1, from, v.sync_id->0, v.to_rev->0);
        let known = routing::lookup_in(m2, key);
        if outrun(m2, from, v.sync_id->0, v.to_rev->0) {
            (Ingested::Ignored, m2)
        } else if known is Some && !same_envelope(known->0, v) {
            (Ingested::Ignored, m2.remove(key))
        } else {
            let p = with_part(known, v, now);
            if p.parts.dom().len() == p.parts_total {
                (Ingested::Complete(p), m2.remove(key))
            } else {
                (Ingested::Buffered { first_part: known is None }, m2.insert(key, p))
            }
        }
    }
}

impl MsynAssembleMap {
    pub open spec fn wf(&self) -> bool {
        &&& self.bufs.wf()
        &&& forall|k: AssembleKey| #[trigger]
            self.bufs@.dom().contains(k) ==> self.bufs@[k].wf() && self.bufs@[k].sync_id == k.sync_id
    }

    /// The incomplete syncs.
    pub open spec fn view(&self) -> Map<AssembleKey, PartialView> {
        bufs_view(self.bufs@)
    }

    pub fn new() -> (out: Self)
        ensures
            out.wf(),
            out.view() == Map::<AssembleKey, PartialView>::empty(),
    {
        let out = MsynAssembleMap { bufs: Table::new() };
        proof {
            assert(out.view() =~= Map::<AssembleKey, PartialView>::empty());
        }
        out
    }

    pub fn get(&self, from: Endpoint, sync_id: u64) -> (out: Option<&PartialMsyn>)
        requires
            self.wf(),
        ensures
            match out {
                Some(p) => routing::lookup_in(self.view(), AssembleKey { from, sync_id }) == Some(
                    p@,
                ),
                None => !self.view().dom().contains(AssembleKey { from, sync_id }),
            },
    {
        self.bufs.get(&AssembleKey { from, sync_id })
    }

    /// Keeps what `p` holds of.
    fn keep<F: Fn(&AssembleKey, &PartialMsyn) -> bool>(
        &mut self,
        f: F,
        Ghost(p): Ghost<spec_fn((AssembleKey, PartialMsyn)) -> bool>,
    )
        requires
            old(self).wf(),
            forall|k: AssembleKey, v: PartialMsyn| #[trigger] call_requires(f, (&k, &v)),
            forall|k: AssembleKey, v: PartialMsyn, b: bool| #[trigger]
                call_ensures(f, (&k, &v), b) ==> b == p((k, v)),
        ensures
            final(self).wf(),
            forall|k: AssembleKey| #[trigger]
                final(self).bufs@.dom().contains(k) <==> (old(self).bufs@.dom().contains(k) && p(
                    (k, old(self).bufs@[k]),
                )),
            forall|k: AssembleKey| #[trigger]
                final(self).bufs@.dom().contains(k) ==> final(self).bufs@[k] == old(self).bufs@[k],
    {
        let ghost s = self.bufs.entries@;
        let ghost m0 = self.bufs@;
        self.bufs.retain_where(f, Ghost(p));
        proof {
            table::map_of_filter(s, p);
            assert forall|k: AssembleKey| #[trigger] self.bufs@.dom().contains(k) <==> (
            table::map_of(s).dom().contains(k) && p((k, table::map_of(s)[k]))) by {
                if table::has_key(s.filter(p), k) {
                    let i = choose|i: int| #[trigger] table::key_at(s, k, i) && p(s[i]);
                    table::map_of_at(s, i);
                    assert(s[i] == (k, table::map_of(s)[k]));
                }
                if table::has_key(s, k) && p((k, table::map_of(s)[k])) {
                    let i = choose|i: int| table::key_at(s, k, i);
                    table::map_of_at(s, i);
                    assert(s[i] == (k, table::map_of(s)[k]));
                    assert(table::key_at(s, k, i) && p(s[i]));
                    assert(table::has_key(s.filter(p), k));
                }
            }
            assert forall|k: AssembleKey| #[trigger] self.bufs@.dom().contains(k) implies
                self.bufs@[k].wf() && self.bufs@[k].sync_id == k.sync_id by {
                assert(m0.dom().contains(k));
                assert(self.bufs@[k] == m0[k]);
            }
        }
    }
}

/// Drops incomplete syncs that are too old.
pub fn sweep_msyn_assemble(map: &mut MsynAssembleMap, now: u64)
    requires
        old(map).wf(),
    ensures
        final(map).wf(),
        final(map).view() == swept(old(map).view(), now),
{
    let ghost m0 = map.view();
    let ghost p = |e: (AssembleKey, PartialMsyn)|
        engine_state::elapsed(now, e.1.first_seen) < MSYN_ASSEMBLE_TTL_MS;
    let f = |k: &AssembleKey, v: &PartialMsyn| -> (b: bool)
        ensures
            b == (engine_state::elapsed(now, v.first_seen) < MSYN_ASSEMBLE_TTL_MS),
        { since(now, v.first_seen) < MSYN_ASSEMBLE_TTL_MS };
    map.keep(f, Ghost(p));
    proof {
        assert(map.view() =~= swept(m0, now));
    }
}

/// Takes a part of a sync. A sync that is complete is handed out; one that is
/// older than what its sender has begun since is dropped.
pub fn ingest_msyn_part(
    map: &mut MsynAssembleMap,
    from: Endpoint,
    v: MsynPart,
    applied_to_rev: u64,
    now: u64,
) -> (out: MsynIngestOutcome)
    requires
        old(map).wf(),
    ensures
        final(map).wf(),
        final(map).view() == ingested(old(map).view(), from, v, applied_to_rev, now).1,
        match ingested(old(map).view(), from, v, applied_to_rev, now).0 {
            Ingested::Ignored => out is Ignored,
            Ingested::Buffered { first_part } => out matches MsynIngestOutcome::Buffered {
                first_part: f,
            } && f == first_part,
            Ingested::Complete(p) => out matches MsynIngestOutcome::Complete(done) && done@ == p
                && done.wf(),
        },
{
    sweep_msyn_assemble(map, now);
    let ghost m1 = map.view();
    let ghost v0 = v;
    let versions: bool = match (v.proto_ver, v.schema_ver) {
        (Some(a), Some(b)) => a == MSYN_PROTO_VER && b == MSYN_SCHEMA_VER,
        _ => false,
    };
    if !versions {
        return MsynIngestOutcome::Ignored;
    }
    let (sync_id, from_rev, to_rev): (u64, u64, u64) = match (v.sync_id, v.from_rev, v.to_rev) {
        (Some(a), Some(b), Some(c)) => (a, b, c),
        _ => {
            return MsynIngestOutcome::Ignored;
        },
    };
    let (part_idx, parts_total): (u64, u64) = match (v.part_idx, v.parts_total) {
        (Some(a), Some(b)) => (a, b),
        _ => {
            return MsynIngestOutcome::Ignored;
        },
    };
    if parts_total == 0 || parts_total > MSYN_ASSEMBLE_MAX_PARTS_TOTAL || part_idx >= parts_total
        || to_rev <= applied_to_rev {
        return MsynIngestOutcome::Ignored;
    }
    let ghost p = |e: (AssembleKey, PartialMsyn)|
        !(e.0.from == from && e.0.sync_id != sync_id && e.1.to_rev <= to_rev);
    let f = |k: &AssembleKey, b: &PartialMsyn| -> (r: bool)
        ensures
            r == !(k.from == from && k.sync_id != sync_id && b.to_rev <= to_rev),
        { !(k.from == from && k.sync_id != sync_id && b.to_rev <= to_rev) };
    map.keep(f, Ghost(p));
    let ghost m2 = map.view();
    proof {
        assert(m2 =~= superseded(m1, from, sync_id, to_rev));
    }
    if is_outrun(map, from, sync_id, to_rev) {
        return MsynIngestOutcome::Ignored;
    }
    let key = AssembleKey { from, sync_id };
    let idx: u32 = part_idx as u32;
    let payload = MsynPartPayload { routes: v.routes, removed: v.removed };
    let ghost known = routing::lookup_in(m2, key);
    proof {
        assert(payload@ =~= payload_of(v0));
    }
    match map.bufs.remove(&key) {
        Some(mut existing) => {
            proof {
                assert(known == Some(existing@));
                assert(map.view() =~= m2.remove(key));
            }
            if existing.parts_total as u64 != parts_total || existing.from_rev != from_rev
                || existing.to_rev != to_rev {
                return MsynIngestOutcome::Ignored;
            }
            let ghost e0 = existing@;
            existing.parts.insert(idx, payload);
            proof {
                assert(existing@.parts =~= e0.parts.insert(idx, payload_of(v0)));
                assert(existing@ =~= with_part(known, v0, now));
                assert(existing@.parts.dom() =~= existing.parts@.dom());
            }
            finish(map, key, existing, false)
        },
        None => {
            proof {
                assert(known is None);
                assert(map.view() =~= m2);
                assert(m2.remove(key) =~= m2);
            }
            let mut parts: Table<u32, MsynPartPayload> = Table::new();
            parts.insert(idx, payload);
            let fresh = PartialMsyn {
                sync_id,
                from_rev,
                to_rev,
                parts_total: parts_total as u32,
                parts,
                first_seen: now,
            };
            proof {
                assert(fresh@.parts =~= Map::<u32, PayloadView>::empty().insert(
                    idx,
                    payload_of(v0),
                ));
                assert(fresh@ =~= with_part(known, v0, now));
                assert(fresh@.parts.dom() =~= fresh.parts@.dom());
            }
            finish(map, key, fresh, true)
        },
    }
}

/// Hands a sync out that is complete, and keeps one that is not.
fn finish(map: &mut MsynAssembleMap, key: AssembleKey, p: PartialMsyn, first_part: bool) -> (out:
    MsynIngestOutcome)
    requires
        old(map).wf(),
        p.wf(),
        p.parts_total > 0,
        p.sync_id == key.sync_id,
        !old(map).bufs@.dom().contains(key),
    ensures
        final(map).wf(),
        if p.parts@.dom().len() == p.parts_total {
            out == MsynIngestOutcome::Complete(p) && final(map).view() == old(map).view()
        } else {
            out == (MsynIngestOutcome::Buffered { first_part }) && final(map).view() == old(
                map).view().insert(key, p@)
        },
{
    if p.is_complete() {
        return MsynIngestOutcome::Complete(p);
    }
    let ghost m0 = map.view();
    map.bufs.insert(key, p);
    proof {
        assert(map.view() =~= m0.insert(key, p@));
    }
    MsynIngestOutcome::Buffered { first_part }
}

/// Whether the sender has begun a later sync.
fn is_outrun(map: &MsynAssembleMap, from: Endpoint, sync_id: u64, to_rev: u64) -> (b: bool)
    requires
        map.wf(),
    ensures
        b == outrun(map.view(), from, sync_id, to_rev),
{
    let ghost s = map.bufs.entries@;
    let mut i: usize = 0;
    while i < map.bufs.entries.len()
        invariant
            map.wf(),
            s == map.bufs.entries@,
            i <= s.len(),
            forall|j: int|
                0 <= j < i ==> !((#[trigger] s[j]).0.from == from && s[j].0.sync_id != sync_id
                    && s[j].1.to_rev > to_rev),
        decreases s.len() - i,
    {
        let e = &map.bufs.entries[i];
        if e.0.from == from && e.0.sync_id != sync_id && e.1.to_rev > to_rev {
            proof {
                table::map_of_at(s, i as int);
                assert(map.view().dom().contains(s[i as int].0));
            }
            return true;
        }
        i += 1;
    }
    proof {
        if outrun(map.view(), from, sync_id, to_rev) {
            let k = choose|k: AssembleKey| #[trigger]
                map.view().dom().contains(k) && k.from == from && k.sync_id != sync_id
                    && map.view()[k].to_rev > to_rev;
            let j = choose|j: int| table::key_at(s, k, j);
            table::map_of_at(s, j);
            assert(s[j].0 == k);
        }
    }
    false
}

/// What became of a part that came in.
pub struct SyncTaken {
    /// The peer list is on its way: nobody needs to be searched for.
    pub stop_reconnects: bool,
    /// What the sync did that the part completed.
    pub applied: Option<MsynApply>,
}

/// The sync `p`, which came from `from`, was taken.
pub open spec fn sync_done(
    pre: EngineState,
    post: EngineState,
    from: Endpoint,
    p: PartialView,
    now: u64,
    out: MsynApply,
) -> bool {
    exists|removed: Seq<String>, routes: Seq<MsynRoute>|
        {
            &&& engine_data::names(removed) == removed_upto(p.parts, p.parts_total as nat)
            &&& route_views(routes) == routes_upto(p.parts, p.parts_total as nat)
            &&& #[trigger] engine_routes::epoch_done(
                pre,
                post,
                from,
                p.from_rev,
                p.to_rev,
                removed,
                routes,
                now,
                out,
            )
        }
}

impl EngineState {
    /// Takes a part of a sync, and applies the sync that it completes.
    pub fn handle_msyn_body(
        &mut self,
        map: &mut MsynAssembleMap,
        v: MsynPart,
        from: Endpoint,
        now: u64,
    ) -> (out: SyncTaken)
        requires
            old(self).wf(),
            old(map).wf(),
        ensures
            final(self).wf(),
            final(map).wf(),
            ({
                let (r, m) = ingested(
                    old(map).view(),
                    from,
                    v,
                    old(self).sync.msyn_applied_to_rev,
                    now,
                );
                &&& final(map).view() == m
                &&& match r {
                    Ingested::Ignored => !out.stop_reconnects && out.applied is None
                        && *final(self) == *old(self),
                    Ingested::Buffered { first_part } => out.stop_reconnects == first_part
                        && out.applied is None && *final(self) == *old(self),
                    Ingested::Complete(p) => out.stop_reconnects && out.applied is Some
                        && sync_done(*old(self), *final(self), from, p, now, out.applied->0),
                }
            }),
    {
        let applied_to_rev: u64 = self.sync.msyn_applied_to_rev;
        match ingest_msyn_part(map, from, v, applied_to_rev, now) {
            MsynIngestOutcome::Ignored => SyncTaken { stop_reconnects: false, applied: None },
            MsynIngestOutcome::Buffered { first_part } => SyncTaken {
                stop_reconnects: first_part,
                applied: None,
            },
            MsynIngestOutcome::Complete(done) => {
                let (removed, routes) = done.assemble_removed_then_routes();
                let applied = self.apply_msyn_epoch(
                    from,
                    done.from_rev,
                    done.to_rev,
                    &removed,
                    &routes,
                    now,
                );
                proof {
                    assert(sync_done(*old(self), *self, from, done@, now, applied)) by {
                        assert(engine_routes::epoch_done(
                            *old(self),
                            *self,
                            from,
                            done@.from_rev,
                            done@.to_rev,
                            removed@,
                            routes@,
                            now,
                            applied,
                        ));
                    }
                }
                SyncTaken { stop_reconnects: true, applied: Some(applied) }
            },
        }
    }
}

/// Each sender has at most one incomplete sync.
pub open spec fn one_per_sender(m: Map<AssembleKey, PartialView>) -> bool {
    forall|a: AssembleKey, b: AssembleKey|
        #![trigger m.dom().contains(a), m.dom().contains(b)]
        m.dom().contains(a) && m.dom().contains(b) && a.from == b.from ==> a == b
}

/// Taking a part leaves each sender with one incomplete sync, if that is what it
/// had: so the bound on incomplete syncs of a sender is never reached.
pub proof fn ingest_keeps_one_per_sender(
    m: Map<AssembleKey, PartialView>,
    from: Endpoint,
    v: MsynPart,
    now: u64,
)
    requires
        one_per_sender(m),
        v.sync_id is Some,
        v.to_rev is Some,
        !outrun(
            superseded(swept(m, now), from, v.sync_id->0, v.to_rev->0),
            from,
            v.sync_id->0,
            v.to_rev->0,
        ),
    ensures
        ({
            let m2 = superseded(swept(m, now), from, v.sync_id->0, v.to_rev->0);
            let key = AssembleKey { from, sync_id: v.sync_id->0 };
            let p = with_part(routing::lookup_in(m2, key), v, now);
            one_per_sender(m2.insert(key, p)) && one_per_sender(m2.remove(key)) && one_per_sender(
                swept(m, now),
            )
        }),
{
    let m1 = swept(m, now);
    let m2 = superseded(m1, from, v.sync_id->0, v.to_rev->0);
    let key = AssembleKey { from, sync_id: v.sync_id->0 };
    let m3 = m2.insert(key, with_part(routing::lookup_in(m2, key), v, now));
    assert forall|a: AssembleKey, b: AssembleKey|
        #![trigger m3.dom().contains(a), m3.dom().contains(b)]
        m3.dom().contains(a) && m3.dom().contains(b) && a.from == b.from implies a == b by {
        if a != key {
            assert(m2.dom().contains(a));
            assert(m.dom().contains(a));
        }
        if b != key {
            assert(m2.dom().contains(b));
            assert(m.dom().contains(b));
        }
    }
    assert forall|a: AssembleKey, b: AssembleKey|
        #![trigger m1.dom().contains(a), m1.dom().contains(b)]
        m1.dom().contains(a) && m1.dom().contains(b) && a.from == b.from implies a == b by {
        assert(m.dom().contains(a) && m.dom().contains(b));
    }
    let m4 = m2.remove(key);
    assert forall|a: AssembleKey, b: AssembleKey|
        #![trigger m4.dom().contains(a), m4.dom().contains(b)]
        m4.dom().contains(a) && m4.dom().contains(b) && a.from == b.from implies a == b by {
        assert(m.dom().contains(a) && m.dom().contains(b));
    }
}

/// A sync that is not newer than what was applied is never handed out.
pub proof fn stale_part_invalid(v: MsynPart, applied_to_rev: u64)
    requires
        v.to_rev is Some,
        v.to_rev->0 <= applied_to_rev,
    ensures
        !part_valid(v, applied_to_rev),
{
}

/// Routes as their receiver reads them; `read` reads an endpoint.
pub open spec fn read_routes(
    routes: Seq<(Seq<char>, Seq<char>, Seq<char>)>,
    read: spec_fn(Seq<char>) -> Option<Endpoint>,
) -> Seq<engine_routes::MsynRouteView> {
    Seq::new(
        routes.len(),
        |i: int|
            engine_routes::MsynRouteView {
                vip: Some(routes[i].0),
                ep: read(routes[i].1),
                node_id: Some(routes[i].2),
            },
    )
}

/// The part `i` of a sync came in as it was sent.
pub open spec fn came_in(
    parts: Map<u32, PayloadView>,
    loads: Seq<msyn_sync::Load>,
    read: spec_fn(Seq<char>) -> Option<Endpoint>,
    i: int,
) -> bool {
    &&& parts.dom().contains(i as u32)
    &&& parts[i as u32].removed == loads[i].removed
    &&& parts[i as u32].routes == read_routes(loads[i].routes, read)
}

/// Once all parts of a sync came in as they were sent, they hold all removals and
/// all routes of the sync, in their order.
pub proof fn parts_give_back_the_sync(
    parts: Map<u32, PayloadView>,
    loads: Seq<msyn_sync::Load>,
    read: spec_fn(Seq<char>) -> Option<Endpoint>,
)
    requires
        loads.len() <= MSYN_ASSEMBLE_MAX_PARTS_TOTAL,
        forall|i: int| 0 <= i < loads.len() ==> #[trigger] came_in(parts, loads, read, i),
    ensures
        removed_upto(parts, loads.len()) == msyn_sync::all_removed(loads),
        routes_upto(parts, loads.len()) == read_routes(msyn_sync::all_routes(loads), read),
    decreases loads.len(),
{
    if loads.len() == 0 {
        assert(routes_upto(parts, 0) =~= read_routes(msyn_sync::all_routes(loads), read));
    } else {
        let rest = loads.drop_last();
        let n = rest.len();
        assert forall|i: int| 0 <= i < rest.len() implies #[trigger] came_in(
            parts,
            rest,
            read,
            i,
        ) by {
            assert(came_in(parts, loads, read, i));
        }
        parts_give_back_the_sync(parts, rest, read);
        assert(came_in(parts, loads, read, n as int));
        assert(read_routes(msyn_sync::all_routes(loads), read) =~= read_routes(
            msyn_sync::all_routes(rest),
            read,
        ) + read_routes(loads.last().routes, read));
    }
}

/// It does not matter which of two parts of a sync comes in first.
pub proof fn parts_come_in_any_order(known: Option<PartialView>, v: MsynPart, w: MsynPart, now: u64)
    requires
        v.part_idx is Some,
        w.part_idx is Some,
        v.part_idx->0 <= u32::MAX,
        w.part_idx->0 <= u32::MAX,
        v.part_idx != w.part_idx,
        v.sync_id == w.sync_id,
        v.from_rev == w.from_rev,
        v.to_rev == w.to_rev,
        v.parts_total == w.parts_total,
    ensures
        with_part(Some(with_part(known, v, now)), w, now) == with_part(
            Some(with_part(known, w, now)),
            v,
            now,
        ),
{
    let a = with_part(Some(with_part(known, v, now)), w, now);
    let b = with_part(Some(with_part(known, w, now)), v, now);
    assert(a.parts =~= b.parts);
}

/// The incomplete syncs once the parts `vs` came in from `from`, the part `j` at the
/// time `at[j]`.
pub open spec fn after_parts(
    m: Map<AssembleKey, PartialView>,
    from: Endpoint,
    vs: Seq<MsynPart>,
    at: Seq<u64>,
    applied_to_rev: u64,
    n: nat,
) -> Map<AssembleKey, PartialView>
    decreases n,
{
    if n == 0 {
        m
    } else {
        ingested(
            after_parts(m, from, vs, at, applied_to_rev, (n - 1) as nat),
            from,
            vs[n - 1],
            applied_to_rev,
            at[n - 1],
        ).1
    }
}

/// What becomes of the part `j` of those that come in.
pub open spec fn outcome_of(
    m: Map<AssembleKey, PartialView>,
    from: Endpoint,
    vs: Seq<MsynPart>,
    at: Seq<u64>,
    applied_to_rev: u64,
    j: int,
) -> Ingested {
    ingested(
        after_parts(m, from, vs, at, applied_to_rev, j as nat),
        from,
        vs[j],
        applied_to_rev,
        at[j],
    ).0
}

/// The part `v` says what the part at `i` of the sync `h` with the parts `loads`
/// says.
pub open spec fn reads_as(
    v: MsynPart,
    h: msyn_sync::EpochHeader,
    loads: Seq<msyn_sync::Load>,
    read: spec_fn(Seq<char>) -> Option<Endpoint>,
    i: int,
) -> bool {
    &&& v.proto_ver == Some(MSYN_PROTO_VER)
    &&& v.schema_ver == Some(MSYN_SCHEMA_VER)
    &&& v.sync_id == Some(h.sync_id)
    &&& v.from_rev == Some(h.from_rev)
    &&& v.to_rev == Some(h.to_rev)
    &&& v.part_idx == Some(i as u64)
    &&& v.parts_total == Some(loads.len() as u64)
    &&& engine_data::names(v.removed@) == loads[i].removed
    &&& route_views(v.routes@) == read_routes(loads[i].routes, read)
}

/// Every number below `n` stands in `order` once.
pub open spec fn is_order(order: Seq<int>, n: nat) -> bool {
    &&& order.len() == n
    &&& order.no_duplicates()
    &&& forall|j: int| 0 <= j < n ==> 0 <= #[trigger] order[j] < n
}

/// The first `j` parts that came in.
spec fn got(order: Seq<int>, vs: Seq<MsynPart>, j: nat) -> Map<u32, PayloadView>
    decreases j,
{
    if j == 0 {
        Map::empty()
    } else {
        got(order, vs, (j - 1) as nat).insert(order[j - 1] as u32, payload_of(vs[j - 1]))
    }
}

proof fn got_each(order: Seq<int>, vs: Seq<MsynPart>, n: nat, j: nat)
    requires
        is_order(order, n),
        n <= MSYN_ASSEMBLE_MAX_PARTS_TOTAL,
        j <= n,
    ensures
        got(order, vs, j).dom().finite(),
        got(order, vs, j).dom().len() == j,
        forall|k: int| #![trigger order[k]]
            0 <= k < j ==> got(order, vs, j).dom().contains(order[k] as u32) && got(
                order,
                vs,
                j,
            )[order[k] as u32] == payload_of(vs[k]),
        forall|k: int| #![trigger order[k]]
            j <= k < n ==> !got(order, vs, j).dom().contains(order[k] as u32),
    decreases j,
{
    if j > 0 {
        got_each(order, vs, n, (j - 1) as nat);
        let rest = got(order, vs, (j - 1) as nat);
        assert(!rest.dom().contains(order[j - 1] as u32));
        assert(got(order, vs, j).dom() =~= rest.dom().insert(order[j - 1] as u32));
        assert forall|k: int| #![trigger order[k]] j <= k < n implies !got(
            order,
            vs,
            j,
        ).dom().contains(order[k] as u32) by {
            assert(order[k] != order[j - 1]);
        }
        assert forall|k: int| #![trigger order[k]] 0 <= k < j implies got(
            order,
            vs,
            j,
        ).dom().contains(order[k] as u32) && got(order, vs, j)[order[k] as u32] == payload_of(
            vs[k],
        ) by {
            if k < j - 1 {
                assert(order[k] != order[j - 1]);
            }
        }
    }
}

/// The sync of which the first `j` parts came in.
spec fn partial_of(
    h: msyn_sync::EpochHeader,
    n: nat,
    order: Seq<int>,
    vs: Seq<MsynPart>,
    at: Seq<u64>,
    j: nat,
) -> PartialView {
    PartialView {
        sync_id: h.sync_id,
        from_rev: h.from_rev,
        to_rev: h.to_rev,
        parts_total: n as u32,
        parts: got(order, vs, j),
        first_seen: at[0],
    }
}

proof fn parts_gather(
    h: msyn_sync::EpochHeader,
    loads: Seq<msyn_sync::Load>,
    read: spec_fn(Seq<char>) -> Option<Endpoint>,
    order: Seq<int>,
    vs: Seq<MsynPart>,
    at: Seq<u64>,
    from: Endpoint,
    applied_to_rev: u64,
    j: nat,
)
    requires
        0 < loads.len() <= MSYN_ASSEMBLE_MAX_PARTS_TOTAL,
        h.to_rev > applied_to_rev,
        is_order(order, loads.len()),
        vs.len() == loads.len(),
        at.len() == loads.len(),
        forall|k: int|
            0 <= k < vs.len() ==> reads_as(#[trigger] vs[k], h, loads, read, order[k]),
        forall|k: int|
            0 <= k < at.len() ==> engine_state::elapsed(#[trigger] at[k], at[0])
                < MSYN_ASSEMBLE_TTL_MS,
        j < loads.len(),
    ensures
        ({
            let key = AssembleKey { from, sync_id: h.sync_id };
            let none = Map::<AssembleKey, PartialView>::empty();
            let n = loads.len();
            &&& after_parts(none, from, vs, at, applied_to_rev, j) == if j == 0 {
                none
            } else {
                none.insert(key, partial_of(h, n, order, vs, at, j))
            }
            &&& outcome_of(none, from, vs, at, applied_to_rev, j as int) == if j + 1 == n {
                Ingested::Complete(partial_of(h, n, order, vs, at, n))
            } else {
                Ingested::Buffered { first_part: j == 0 }
            }
            &&& after_parts(none, from, vs, at, applied_to_rev, (j + 1) as nat) == if j + 1 == n {
                none
            } else {
                none.insert(key, partial_of(h, n, order, vs, at, (j + 1) as nat))
            }
        }),
    decreases j,
{
    let key = AssembleKey { from, sync_id: h.sync_id };
    let none = Map::<AssembleKey, PartialView>::empty();
    let n = loads.len();
    if j > 0 {
        parts_gather(h, loads, read, order, vs, at, from, applied_to_rev, (j - 1) as nat);
    }
    let m = after_parts(none, from, vs, at, applied_to_rev, j);
    let v = vs[j as int];
    assert(reads_as(v, h, loads, read, order[j as int]));
    assert(engine_state::elapsed(at[j as int], at[0]) < MSYN_ASSEMBLE_TTL_MS);
    let m1 = swept(m, at[j as int]);
    assert(m1 =~= m);
    let m2 = superseded(m1, from, h.sync_id, h.to_rev);
    assert(m2 =~= m);
    assert(!outrun(m2, from, h.sync_id, h.to_rev));
    got_each(order, vs, n, j);
    got_each(order, vs, n, (j + 1) as nat);
    let known = routing::lookup_in(m2, key);
    let p = with_part(known, v, at[j as int]);
    assert(p =~= partial_of(h, n, order, vs, at, (j + 1) as nat));
    assert(m2.remove(key) =~= none);
    assert(m2.insert(key, p) =~= none.insert(key, p));
}

/// The parts of a sync give the sync back, in whatever order they come in, as long as
/// they come in before the first of them is too old: the last one completes the sync
/// and no other does, all its removals and all its routes are there in their order,
/// and nothing is kept.
pub proof fn parts_in_any_order_give_back_the_sync(
    h: msyn_sync::EpochHeader,
    routes: Seq<(Seq<char>, Seq<char>, Seq<char>)>,
    removed: Seq<Seq<char>>,
    budget: int,
    read: spec_fn(Seq<char>) -> Option<Endpoint>,
    order: Seq<int>,
    vs: Seq<MsynPart>,
    at: Seq<u64>,
    from: Endpoint,
    applied_to_rev: u64,
)
    requires
        msyn_sync::packed(h, routes, removed, budget) is Going,
        ({
            let loads = msyn_sync::parts_of(msyn_sync::packed(h, routes, removed, budget));
            &&& loads.len() <= MSYN_ASSEMBLE_MAX_PARTS_TOTAL
            &&& is_order(order, loads.len())
            &&& vs.len() == loads.len()
            &&& at.len() == loads.len()
            &&& forall|k: int|
                0 <= k < vs.len() ==> reads_as(#[trigger] vs[k], h, loads, read, order[k])
        }),
        h.to_rev > applied_to_rev,
        forall|k: int|
            0 <= k < at.len() ==> engine_state::elapsed(#[trigger] at[k], at[0])
                < MSYN_ASSEMBLE_TTL_MS,
    ensures
        ({
            let none = Map::<AssembleKey, PartialView>::empty();
            let last = vs.len() - 1;
            &&& vs.len() >= 1
            &&& forall|j: int|
                0 <= j < last ==> #[trigger] outcome_of(none, from, vs, at, applied_to_rev, j) == (
                Ingested::Buffered { first_part: j == 0 })
            &&& outcome_of(none, from, vs, at, applied_to_rev, last) matches Ingested::Complete(p)
                && p.sync_id == h.sync_id && p.from_rev == h.from_rev && p.to_rev == h.to_rev
                && removed_upto(p.parts, p.parts_total as nat) == removed && routes_upto(
                p.parts,
                p.parts_total as nat,
            ) == read_routes(routes, read)
            &&& after_parts(none, from, vs, at, applied_to_rev, vs.len()) == none
        }),
{
    let loads = msyn_sync::parts_of(msyn_sync::packed(h, routes, removed, budget));
    let n = loads.len();
    let none = Map::<AssembleKey, PartialView>::empty();
    msyn_sync::packing_keeps_everything(msyn_sync::short_len(h), budget, removed, routes);
    msyn_sync::packing_keeps_everything(msyn_sync::long_len(h), budget, removed, routes);
    assert forall|j: int| 0 <= j < n - 1 implies #[trigger] outcome_of(
        none,
        from,
        vs,
        at,
        applied_to_rev,
        j,
    ) == (Ingested::Buffered { first_part: j == 0 }) by {
        parts_gather(h, loads, read, order, vs, at, from, applied_to_rev, j as nat);
    }
    parts_gather(h, loads, read, order, vs, at, from, applied_to_rev, (n - 1) as nat);
    let parts = got(order, vs, n);
    got_each(order, vs, n, n);
    assert forall|i: int| 0 <= i < n implies #[trigger] came_in(parts, loads, read, i) by {
        order_is_onto(order, n, i);
        let k = choose|k: int| 0 <= k < n && order[k] == i;
        assert(reads_as(vs[k], h, loads, read, order[k]));
    }
    parts_give_back_the_sync(parts, loads, read);
}

/// Every number below `n` is somewhere in an order of them.
proof fn order_is_onto(order: Seq<int>, n: nat, i: int)
    requires
        is_order(order, n),
        0 <= i < n,
    ensures
        exists|k: int| 0 <= k < n && order[k] == i,
{
    let s = order.to_set();
    order.unique_seq_to_set();
    let all = vstd::set_lib::set_int_range(0, n as int);
    vstd::set_lib::lemma_int_range(0, n as int);
    assert forall|x: int| s.contains(x) implies #[trigger] all.contains(x) by {
        let k = choose|k: int| 0 <= k < n && order[k] == x;
        assert(0 <= order[k] < n);
    }
    vstd::set_lib::lemma_subset_equality(s, all);
    assert(s.contains(i));
}

} // verus!
