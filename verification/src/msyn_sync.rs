//! Syncs between the owner and its peers: how they are cut into parts, how the
//! parts are put together again, and when a peer counts as served.

use crate::engine_data;
use crate::engine_routes::{MSYN_APPLY_MAX_REMOVED, MSYN_APPLY_MAX_ROUTES};
use crate::engine_state;
use crate::engine_state::SyncState;
use crate::routing::RouteState;
use crate::table;
use crate::table::NameSet;
use serde_json::Value;
use vstd::prelude::*;
use vstd::string::*;
use vstd::utf8::*;

verus! {

pub const MSYN_PROTO_VER: u64 = 4;

pub const MSYN_SCHEMA_VER: u64 = 1;

pub const MSYN_ASSEMBLE_MAX_PARTS_TOTAL: u64 = 64;

/// The bytes that sealing and framing add to a part on the wire.
pub const MSYN_SHARD_WRAP_RESERVE: usize = 52;

pub const MSYN_JSON_BUDGET_FLOOR: usize = 256;

/// The room for the text of a part, where `configured` is the room on the wire.
pub fn effective_msyn_json_budget(configured: usize) -> (out: usize)
    ensures
        out == if configured >= MSYN_SHARD_WRAP_RESERVE + MSYN_JSON_BUDGET_FLOOR {
            configured - MSYN_SHARD_WRAP_RESERVE
        } else {
            MSYN_JSON_BUDGET_FLOOR as int
        },
{
    if configured >= MSYN_SHARD_WRAP_RESERVE + MSYN_JSON_BUDGET_FLOOR {
        configured - MSYN_SHARD_WRAP_RESERVE
    } else {
        MSYN_JSON_BUDGET_FLOOR
    }
}

/// `s` with `v` behind it, unless it is in `s` already.
pub open spec fn push_new(s: Seq<Seq<char>>, v: Seq<char>) -> Seq<Seq<char>> {
    if s.contains(v) {
        s
    } else {
        s.push(v)
    }
}

/// The removals of the first `n` tombs that are newer than `last`, each once.
pub open spec fn owed_tombs(last: u64, tombs: Seq<(String, u64)>, n: nat) -> Seq<Seq<char>>
    decreases n,
{
    if n == 0 {
        Seq::empty()
    } else {
        let rest = owed_tombs(last, tombs, (n - 1) as nat);
        if tombs[n - 1].1 > last {
            push_new(rest, tombs[n - 1].0@)
        } else {
            rest
        }
    }
}

/// `s` and then the first `n` names of a list, each once.
pub open spec fn with_names(s: Seq<Seq<char>>, list: Seq<(String, ())>, n: nat) -> Seq<Seq<char>>
    decreases n,
{
    if n == 0 {
        s
    } else {
        push_new(with_names(s, list, (n - 1) as nat), list[n - 1].0@)
    }
}

/// The removals that a peer has to be told: the tombs that are newer than what
/// it was served, and then those that are noted for it.
pub open spec fn owed_list(last: u64, tombs: Seq<(String, u64)>, pending: Option<NameSet>) -> Seq<
    Seq<char>,
> {
    let t = owed_tombs(last, tombs, tombs.len());
    match pending {
        Some(p) => with_names(t, p.names.entries@, p.names.entries@.len()),
        None => t,
    }
}

/// A tomb of `v` that is newer than `last`.
pub open spec fn fresh_tomb(last: u64, tombs: Seq<(String, u64)>, v: Seq<char>) -> bool {
    exists|i: int| 0 <= i < tombs.len() && (#[trigger] tombs[i]).0@ == v && tombs[i].1 > last
}

/// The names that are noted for a peer.
pub open spec fn noted(pending: Option<NameSet>) -> Set<Seq<char>> {
    match pending {
        Some(p) => p@,
        None => Set::empty(),
    }
}

proof fn owed_tombs_members(last: u64, tombs: Seq<(String, u64)>, n: nat, v: Seq<char>)
    requires
        n <= tombs.len(),
    ensures
        owed_tombs(last, tombs, n).no_duplicates(),
        owed_tombs(last, tombs, n).contains(v) <==> exists|i: int|
            0 <= i < n && (#[trigger] tombs[i]).0@ == v && tombs[i].1 > last,
    decreases n,
{
    if n > 0 {
        owed_tombs_members(last, tombs, (n - 1) as nat, v);
        let rest = owed_tombs(last, tombs, (n - 1) as nat);
        if tombs[n - 1].1 > last {
            push_new_members(rest, tombs[n - 1].0@, v);
        }
    }
}

proof fn push_new_members(s: Seq<Seq<char>>, x: Seq<char>, v: Seq<char>)
    requires
        s.no_duplicates(),
    ensures
        push_new(s, x).no_duplicates(),
        push_new(s, x).contains(v) <==> (s.contains(v) || v == x),
{
    let t = push_new(s, x);
    if s.contains(v) {
        let i = choose|i: int| 0 <= i < s.len() && s[i] == v;
        assert(t[i] == v);
    }
    if v == x && !s.contains(x) {
        assert(t[s.len() as int] == v);
    }
    if t.contains(v) {
        let i = choose|i: int| 0 <= i < t.len() && t[i] == v;
        if i < s.len() {
            assert(s[i] == v);
        }
    }
}

proof fn with_names_members(s: Seq<Seq<char>>, list: Seq<(String, ())>, n: nat, v: Seq<char>)
    requires
        n <= list.len(),
        s.no_duplicates(),
    ensures
        with_names(s, list, n).no_duplicates(),
        with_names(s, list, n).contains(v) <==> (s.contains(v) || exists|i: int|
            0 <= i < n && (#[trigger] list[i]).0@ == v),
    decreases n,
{
    if n > 0 {
        with_names_members(s, list, (n - 1) as nat, v);
        push_new_members(with_names(s, list, (n - 1) as nat), list[n - 1].0@, v);
    }
}

/// A peer is told of each removal once, of every one that it does not know, and
/// of nothing else.
pub proof fn owed_list_exact(
    last: u64,
    tombs: Seq<(String, u64)>,
    pending: Option<NameSet>,
    v: Seq<char>,
)
    requires
        pending is Some ==> pending->0.wf(),
    ensures
        owed_list(last, tombs, pending).no_duplicates(),
        owed_list(last, tombs, pending).contains(v) <==> (fresh_tomb(last, tombs, v) || noted(
            pending,
        ).contains(v)),
{
    owed_tombs_members(last, tombs, tombs.len(), v);
    if let Some(p) = pending {
        let t = owed_tombs(last, tombs, tombs.len());
        let list = p.names.entries@;
        with_names_members(t, list, list.len(), v);
        if p@.contains(v) {
            let i = choose|i: int| table::key_at(list, v, i);
            assert(list[i].0@ == v);
        }
        if exists|i: int| 0 <= i < list.len() && (#[trigger] list[i]).0@ == v {
            let i = choose|i: int| 0 <= i < list.len() && (#[trigger] list[i]).0@ == v;
            table::map_of_at(list, i);
        }
    }
}

/// Appends `v` unless it is there.
fn push_if_new(out: &mut Vec<String>, v: &String)
    ensures
        engine_data::names(final(out)@) == push_new(engine_data::names(old(out)@), v@),
{
    let ghost before = engine_data::names(out@);
    let mut i: usize = 0;
    while i < out.len()
        invariant
            i <= out@.len(),
            out@ == old(out)@,
            before == engine_data::names(out@),
            forall|j: int| 0 <= j < i ==> before[j] != v@,
        decreases out@.len() - i,
    {
        if out[i] == *v {
            proof {
                assert(before[i as int] == v@);
            }
            return;
        }
        i += 1;
    }
    proof {
        assert(!before.contains(v@));
    }
    out.push(v.clone());
    proof {
        assert(engine_data::names(out@) =~= before.push(v@));
    }
}

/// The removals that a peer has to be told.
pub fn collect_removed_vips(
    last: u64,
    tombs: &Vec<(String, u64)>,
    pending: Option<&NameSet>,
) -> (out: Vec<String>)
    requires
        pending is Some ==> pending->0.wf(),
    ensures
        engine_data::names(out@) == owed_list(last, tombs@, owned(pending)),
{
    let mut out: Vec<String> = Vec::new();
    let mut i: usize = 0;
    proof {
        assert(engine_data::names(out@) =~= Seq::<Seq<char>>::empty());
    }
    while i < tombs.len()
        invariant
            i <= tombs@.len(),
            engine_data::names(out@) == owed_tombs(last, tombs@, i as nat),
        decreases tombs@.len() - i,
    {
        if tombs[i].1 > last {
            push_if_new(&mut out, &tombs[i].0);
        }
        i += 1;
    }
    if let Some(p) = pending {
        let ghost t = engine_data::names(out@);
        let mut j: usize = 0;
        while j < p.names.entries.len()
            invariant
                j <= p.names.entries@.len(),
                engine_data::names(out@) == with_names(t, p.names.entries@, j as nat),
            decreases p.names.entries@.len() - j,
        {
            push_if_new(&mut out, &p.names.entries[j].0);
            j += 1;
        }
    }
    out
}

/// An optional borrow as an optional value.
pub open spec fn owned<T>(x: Option<&T>) -> Option<T> {
    match x {
        Some(t) => Some(*t),
        None => None,
    }
}

/// Something is left that a peer has to be told.
pub open spec fn owes(last: u64, tombs: Seq<(String, u64)>, pending: Option<NameSet>) -> bool {
    noted(pending) != Set::<Seq<char>>::empty() || exists|i: int|
        0 <= i < tombs.len() && (#[trigger] tombs[i]).1 > last
}

pub fn peer_owes_removals(
    last: u64,
    tombs: &Vec<(String, u64)>,
    pending: Option<&NameSet>,
) -> (b: bool)
    requires
        pending is Some ==> pending->0.wf(),
    ensures
        b == owes(last, tombs@, owned(pending)),
{
    if let Some(p) = pending {
        if !p.is_empty() {
            return true;
        }
    }
    let mut i: usize = 0;
    while i < tombs.len()
        invariant
            i <= tombs@.len(),
            forall|j: int| 0 <= j < i ==> (#[trigger] tombs@[j]).1 <= last,
        decreases tombs@.len() - i,
    {
        if tombs[i].1 > last {
            return true;
        }
        i += 1;
    }
    false
}

/// Nothing is owed exactly where the list of what is owed is empty.
pub proof fn owes_nothing_iff_list_empty(
    last: u64,
    tombs: Seq<(String, u64)>,
    pending: Option<NameSet>,
)
    requires
        pending is Some ==> pending->0.wf(),
    ensures
        owes(last, tombs, pending) <==> owed_list(last, tombs, pending).len() > 0,
{
    let list = owed_list(last, tombs, pending);
    if owes(last, tombs, pending) {
        if noted(pending) != Set::<Seq<char>>::empty() {
            assert(exists|v: Seq<char>| noted(pending).contains(v)) by {
                if forall|v: Seq<char>| !noted(pending).contains(v) {
                    assert(noted(pending) =~= Set::<Seq<char>>::empty());
                }
            }
            let v = choose|v: Seq<char>| noted(pending).contains(v);
            owed_list_exact(last, tombs, pending, v);
        } else {
            let i = choose|i: int| 0 <= i < tombs.len() && (#[trigger] tombs[i]).1 > last;
            assert(fresh_tomb(last, tombs, tombs[i].0@));
            owed_list_exact(last, tombs, pending, tombs[i].0@);
        }
    }
    if list.len() > 0 {
        let v = list[0];
        assert(list.contains(v));
        owed_list_exact(last, tombs, pending, v);
        if fresh_tomb(last, tombs, v) {
            let i = choose|i: int|
                0 <= i < tombs.len() && (#[trigger] tombs[i]).0@ == v && tombs[i].1 > last;
            assert(tombs[i].1 > last);
        }
    }
}

pub fn should_advance_peer_sync(
    sync_ok: bool,
    last: u64,
    tombs: &Vec<(String, u64)>,
    pending: Option<&NameSet>,
) -> (b: bool)
    requires
        pending is Some ==> pending->0.wf(),
    ensures
        b == (sync_ok && !owes(last, tombs@, owned(pending))),
{
    sync_ok && !peer_owes_removals(last, tombs, pending)
}

/// Whether a peer counts as served once a sync was sent and what it delivered is
/// struck off: nothing may be noted for it then.
pub fn should_advance_peer_sync_after_send(sync_ok: bool, pending_after: Option<&NameSet>) -> (b:
    bool)
    requires
        pending_after is Some ==> pending_after->0.wf(),
    ensures
        b == (sync_ok && noted(owned(pending_after)) == Set::<Seq<char>>::empty()),
{
    if !sync_ok {
        return false;
    }
    match pending_after {
        Some(p) => p.is_empty(),
        None => true,
    }
}

/// Strikes off what was delivered.
pub fn clear_pending_delivered(pending: &mut NameSet, removed_vips: &Vec<String>)
    requires
        old(pending).wf(),
    ensures
        final(pending).wf(),
        forall|v: Seq<char>| #[trigger]
            final(pending)@.contains(v) <==> (old(pending)@.contains(v) && !engine_data::names(
                removed_vips@,
            ).contains(v)),
{
    let ghost p0 = pending@;
    let ghost all = engine_data::names(removed_vips@);
    let mut i: usize = 0;
    while i < removed_vips.len()
        invariant
            i <= removed_vips@.len(),
            all == engine_data::names(removed_vips@),
            pending.wf(),
            forall|v: Seq<char>| #[trigger]
                pending@.contains(v) <==> (p0.contains(v) && forall|j: int|
                    0 <= j < i ==> all[j] != v),
        decreases removed_vips@.len() - i,
    {
        let _ = pending.remove(&removed_vips[i]);
        proof {
            assert(all[i as int] == removed_vips@[i as int]@);
        }
        i += 1;
    }
    proof {
        assert forall|v: Seq<char>| #[trigger] pending@.contains(v) <==> (p0.contains(v)
            && !all.contains(v)) by {
            if all.contains(v) {
                let j = choose|j: int| 0 <= j < all.len() && all[j] == v;
                assert(all[j] == v);
            }
        }
    }
}

/// A route as it is written into a sync.
#[derive(Debug)]
pub struct MsynRouteItem {
    pub vip: String,
    pub ep: String,
    pub node_id: String,
}

impl View for MsynRouteItem {
    type V = (Seq<char>, Seq<char>, Seq<char>);

    open spec fn view(&self) -> (Seq<char>, Seq<char>, Seq<char>) {
        (self.vip@, self.ep@, self.node_id@)
    }
}

impl Clone for MsynRouteItem {
    fn clone(&self) -> (out: Self)
        ensures
            out@ == self@,
            out.vip@ == self.vip@,
            out.ep@ == self.ep@,
            out.node_id@ == self.node_id@,
    {
        MsynRouteItem {
            vip: self.vip.clone(),
            ep: self.ep.clone(),
            node_id: self.node_id.clone(),
        }
    }
}

/// A route as the owner has it.
pub struct RouteSyncRow {
    pub vip: String,
    /// The endpoint as text.
    pub endpoint: String,
    pub node_id: String,
    pub last_modified_revision: u64,
    pub state: RouteState,
}

impl RouteSyncRow {
    pub open spec fn item(&self) -> (Seq<char>, Seq<char>, Seq<char>) {
        (self.vip@, self.endpoint@, self.node_id@)
    }
}

impl MsynRouteItem {
    fn from_sync_row(r: &RouteSyncRow) -> (out: Self)
        ensures
            out@ == r.item(),
            out.vip@ == r.vip@,
            out.ep@ == r.endpoint@,
            out.node_id@ == r.node_id@,
    {
        MsynRouteItem {
            vip: r.vip.clone(),
            ep: r.endpoint.clone(),
            node_id: r.node_id.clone(),
        }
    }
}

/// The routes of a list.
pub open spec fn items(v: Seq<MsynRouteItem>) -> Seq<(Seq<char>, Seq<char>, Seq<char>)> {
    Seq::new(v.len(), |i: int| v[i]@)
}

/// Why a sync cannot be sent.
#[derive(Debug, Clone, PartialEq, Eq)]
pub enum ShardError {
    EntryTooLarge { kind: &'static str, bytes: usize },
    TooManyParts { parts: u32 },
    EpochTooLarge { routes: usize, removed: usize },
}

/// The text that `serde_json` writes for an object that has a number under each
/// name of `numbers`, a list under `rows_key` of objects whose three texts stand
/// under the names of `fields`, and a list of texts under `names_key`.
pub uninterp spec fn object_json(
    numbers: Seq<(Seq<char>, u64)>,
    rows_key: Seq<char>,
    fields: (Seq<char>, Seq<char>, Seq<char>),
    rows: Seq<(Seq<char>, Seq<char>, Seq<char>)>,
    names_key: Seq<char>,
    names: Seq<Seq<char>>,
) -> Seq<char>;

/// How many digits a number has.
pub open spec fn digits(n: u64) -> nat
    decreases n,
{
    if n < 10 {
        1
    } else {
        1 + digits(n / 10)
    }
}

/// How many digits the numbers of a list have.
pub open spec fn all_digits(numbers: Seq<(Seq<char>, u64)>) -> nat
    decreases numbers.len(),
{
    if numbers.len() == 0 {
        0
    } else {
        all_digits(numbers.drop_last()) + digits(numbers.last().1)
    }
}

/// The names are the same.
pub open spec fn same_names(a: Seq<(Seq<char>, u64)>, b: Seq<(Seq<char>, u64)>) -> bool {
    a.len() == b.len() && forall|i: int| 0 <= i < a.len() ==> (#[trigger] a[i]).0 == b[i].0
}

/// No name occurs twice.
pub open spec fn names_differ(
    numbers: Seq<(Seq<char>, u64)>,
    rows_key: Seq<char>,
    names_key: Seq<char>,
) -> bool {
    &&& forall|i: int, j: int|
        0 <= i < j < numbers.len() ==> (#[trigger] numbers[i]).0 != (#[trigger] numbers[j]).0
    &&& forall|i: int|
        0 <= i < numbers.len() ==> (#[trigger] numbers[i]).0 != rows_key && numbers[i].0
            != names_key
    &&& rows_key != names_key
}

/// The numbers with their names, by value.
pub open spec fn named_numbers(s: Seq<(&str, u64)>) -> Seq<(Seq<char>, u64)> {
    Seq::new(s.len(), |i: int| (s[i].0@, s[i].1))
}

/// Writes a JSON object.
///
/// Calls `serde_json::Value::to_string`, of which it is claimed that the text
/// depends on these arguments alone, and that a number takes as many bytes as it
/// has digits: with other numbers under the same names, the length differs by the
/// digits alone.
#[verifier::external_body]
fn object_text(
    numbers: &Vec<(&'static str, u64)>,
    rows_key: &str,
    fields: (&str, &str, &str),
    rows: &Vec<MsynRouteItem>,
    names_key: &str,
    names: &Vec<String>,
) -> (out: String)
    ensures
        out@ == object_json(
            named_numbers(numbers@),
            rows_key@,
            (fields.0@, fields.1@, fields.2@),
            items(rows@),
            names_key@,
            engine_data::names(names@),
        ),
        names_differ(named_numbers(numbers@), rows_key@, names_key@) ==> forall|
            other: Seq<(Seq<char>, u64)>,
        |
            same_names(other, named_numbers(numbers@)) ==> encode_utf8(
                #[trigger] object_json(
                    other,
                    rows_key@,
                    (fields.0@, fields.1@, fields.2@),
                    items(rows@),
                    names_key@,
                    engine_data::names(names@),
                ),
            ).len() + all_digits(named_numbers(numbers@)) == encode_utf8(out@).len() + all_digits(
                other,
            ),
{
    let (a, b, c) = fields;
    let list: Value = rows.iter().map(|r| Value::from_iter([
        (a, r.vip.as_str()), (b, r.ep.as_str()), (c, r.node_id.as_str()),
    ])).collect();
    let mut o: serde_json::Map<String, Value> =
        numbers.iter().map(|n| (n.0.to_string(), n.1.into())).collect();
    o.insert(rows_key.to_string(), list);
    o.insert(names_key.to_string(), names.clone().into());
    Value::Object(o).to_string()
}

/// What all parts of a sync have in common.
#[derive(Clone, Copy)]
pub struct EpochHeader {
    pub from_rev: u64,
    pub to_rev: u64,
    pub sync_id: u64,
}

/// The numbers of the part at `idx` of `total`.
pub open spec fn part_numbers(h: EpochHeader, idx: u32, total: u32) -> Seq<(Seq<char>, u64)> {
    seq![
        ("proto_ver"@, MSYN_PROTO_VER),
        ("schema_ver"@, MSYN_SCHEMA_VER),
        ("from_rev"@, h.from_rev),
        ("to_rev"@, h.to_rev),
        ("sync_id"@, h.sync_id),
        ("part_idx"@, idx as u64),
        ("parts_total"@, total as u64),
    ]
}

/// The text of the part at `idx` of `total`.
pub open spec fn part_json(
    h: EpochHeader,
    idx: u32,
    total: u32,
    routes: Seq<(Seq<char>, Seq<char>, Seq<char>)>,
    removed: Seq<Seq<char>>,
) -> Seq<char> {
    object_json(
        part_numbers(h, idx, total),
        "routes"@,
        ("vip"@, "ep"@, "node_id"@),
        routes,
        "removed"@,
        removed,
    )
}

proof fn part_names_differ(h: EpochHeader, idx: u32, total: u32)
    ensures
        names_differ(part_numbers(h, idx, total), "routes"@, "removed"@),
{
    reveal_strlit("proto_ver");
    reveal_strlit("schema_ver");
    reveal_strlit("from_rev");
    reveal_strlit("to_rev");
    reveal_strlit("sync_id");
    reveal_strlit("part_idx");
    reveal_strlit("parts_total");
    reveal_strlit("routes");
    reveal_strlit("removed");
    let s = part_numbers(h, idx, total);
    assert(s[2].0[0] != s[5].0[0]);
    assert(s[3].0[0] != "routes"@[0]);
    assert(s[4].0[0] != "removed"@[0]);
    assert forall|i: int, j: int| 0 <= i < j < s.len() implies (#[trigger] s[i]).0 != (
    #[trigger] s[j]).0 by {
        if s[i].0 == s[j].0 {
            assert(s[i].0.len() == s[j].0.len());
            assert(i == 2 && j == 5);
        }
    }
    assert forall|i: int| 0 <= i < s.len() implies (#[trigger] s[i]).0 != "routes"@ && s[i].0
        != "removed"@ by {
        if s[i].0.len() == 6 {
            assert(i == 3);
        }
        if s[i].0.len() == 7 {
            assert(i == 4);
        }
    }
    assert("routes"@.len() != "removed"@.len());
}

proof fn digits_of_part(h: EpochHeader, idx: u32, total: u32)
    ensures
        all_digits(part_numbers(h, idx, total)) == digits(MSYN_PROTO_VER) + digits(
            MSYN_SCHEMA_VER,
        ) + digits(h.from_rev) + digits(h.to_rev) + digits(h.sync_id) + digits(idx as u64) + digits(
            total as u64,
        ),
{
    let s = part_numbers(h, idx, total);
    assert(s.len() == 7);
    assert(all_digits(s.take(0)) == 0);
    assert forall|n: int| 0 < n <= 7 implies #[trigger] all_digits(s.take(n)) == all_digits(
        s.take(n - 1),
    ) + digits(s[n - 1].1) by {
        assert(s.take(n).drop_last() =~= s.take(n - 1));
        assert(s.take(n).last() == s[n - 1]);
    }
    assert(s.take(7) =~= s);
    assert(all_digits(s.take(1)) == digits(MSYN_PROTO_VER));
    assert(all_digits(s.take(2)) == all_digits(s.take(1)) + digits(MSYN_SCHEMA_VER));
    assert(all_digits(s.take(3)) == all_digits(s.take(2)) + digits(h.from_rev));
    assert(all_digits(s.take(4)) == all_digits(s.take(3)) + digits(h.to_rev));
    assert(all_digits(s.take(5)) == all_digits(s.take(4)) + digits(h.sync_id));
    assert(all_digits(s.take(6)) == all_digits(s.take(5)) + digits(idx as u64));
    assert(all_digits(s.take(7)) == all_digits(s.take(6)) + digits(total as u64));
}

/// Writes the part at `part_idx` of `parts_total`.
fn serialize_part(
    h: EpochHeader,
    part_idx: u32,
    parts_total: u32,
    routes: &Vec<MsynRouteItem>,
    removed: &Vec<String>,
) -> (out: String)
    ensures
        out@ == part_json(
            h,
            part_idx,
            parts_total,
            items(routes@),
            engine_data::names(removed@),
        ),
        forall|i: u32, n: u32|
            encode_utf8(
                #[trigger] part_json(h, i, n, items(routes@), engine_data::names(removed@)),
            ).len() + digits(part_idx as u64) + digits(parts_total as u64) == encode_utf8(
                out@,
            ).len() + digits(i as u64) + digits(n as u64),
{
    let numbers: Vec<(&'static str, u64)> = vec![
        ("proto_ver", MSYN_PROTO_VER),
        ("schema_ver", MSYN_SCHEMA_VER),
        ("from_rev", h.from_rev),
        ("to_rev", h.to_rev),
        ("sync_id", h.sync_id),
        ("part_idx", part_idx as u64),
        ("parts_total", parts_total as u64),
    ];
    proof {
        assert(named_numbers(numbers@) =~= part_numbers(h, part_idx, parts_total));
        part_names_differ(h, part_idx, parts_total);
        digits_of_part(h, part_idx, parts_total);
    }
    let out: String = object_text(
        &numbers,
        "routes",
        ("vip", "ep", "node_id"),
        routes,
        "removed",
        removed,
    );
    proof {
        assert forall|i: u32, n: u32|
            encode_utf8(
                #[trigger] part_json(h, i, n, items(routes@), engine_data::names(removed@)),
            ).len() + digits(part_idx as u64) + digits(parts_total as u64) == encode_utf8(
                out@,
            ).len() + digits(i as u64) + digits(n as u64) by {
            digits_of_part(h, i, n);
            assert(same_names(part_numbers(h, i, n), part_numbers(h, part_idx, parts_total)));
        }
    }
    out
}

/// What a part holds.
#[verifier::ext_equal]
pub ghost struct Load {
    pub routes: Seq<(Seq<char>, Seq<char>, Seq<char>)>,
    pub removed: Seq<Seq<char>>,
}

/// What a part holds.
pub struct PartLoad {
    pub routes: Vec<MsynRouteItem>,
    pub removed: Vec<String>,
}

impl View for PartLoad {
    type V = Load;

    open spec fn view(&self) -> Load {
        Load { routes: items(self.routes@), removed: engine_data::names(self.removed@) }
    }
}

impl Load {
    pub open spec fn is_empty(self) -> bool {
        self.routes.len() == 0 && self.removed.len() == 0
    }

    pub open spec fn nothing() -> Load {
        Load { routes: Seq::empty(), removed: Seq::empty() }
    }

    pub open spec fn with_route(self, r: (Seq<char>, Seq<char>, Seq<char>)) -> Load {
        Load { routes: self.routes.push(r), removed: self.removed }
    }

    pub open spec fn with_removed(self, v: Seq<char>) -> Load {
        Load { routes: self.routes, removed: self.removed.push(v) }
    }
}

/// How far the packing has come.
pub ghost enum Packing {
    /// The parts that are full, and the one that is being filled.
    Going { done: Seq<Load>, cur: Load },
    /// An entry is too large for a part of its own.
    Failed { route: bool, bytes: int },
}

/// Packs one more entry: `with` is the current part with it, `alone` a part of
/// its own. How large a part is may depend on its place.
pub open spec fn pack_one(
    len_of: spec_fn(int, Load) -> int,
    budget: int,
    done: Seq<Load>,
    cur: Load,
    with: Load,
    alone: Load,
    route: bool,
) -> Packing {
    let full = if cur.is_empty() {
        done
    } else {
        done.push(cur)
    };
    if len_of(done.len() as int, with) <= budget {
        Packing::Going { done, cur: with }
    } else if len_of(full.len() as int, alone) <= budget {
        Packing::Going { done: full, cur: alone }
    } else {
        Packing::Failed { route, bytes: len_of(full.len() as int, alone) }
    }
}

/// The packing once the first `n` removals are in.
pub open spec fn pack_removed(
    len_of: spec_fn(int, Load) -> int,
    budget: int,
    removed: Seq<Seq<char>>,
    n: nat,
) -> Packing
    decreases n,
{
    if n == 0 {
        Packing::Going { done: Seq::empty(), cur: Load::nothing() }
    } else {
        match pack_removed(len_of, budget, removed, (n - 1) as nat) {
            Packing::Going { done, cur } => pack_one(
                len_of,
                budget,
                done,
                cur,
                cur.with_removed(removed[n - 1]),
                Load::nothing().with_removed(removed[n - 1]),
                false,
            ),
            Packing::Failed { route, bytes } => Packing::Failed { route, bytes },
        }
    }
}

/// The packing once all removals and the first `n` routes are in.
pub open spec fn pack_routes(
    len_of: spec_fn(int, Load) -> int,
    budget: int,
    removed: Seq<Seq<char>>,
    routes: Seq<(Seq<char>, Seq<char>, Seq<char>)>,
    n: nat,
) -> Packing
    decreases n,
{
    if n == 0 {
        pack_removed(len_of, budget, removed, removed.len())
    } else {
        match pack_routes(len_of, budget, removed, routes, (n - 1) as nat) {
            Packing::Going { done, cur } => pack_one(
                len_of,
                budget,
                done,
                cur,
                cur.with_route(routes[n - 1]),
                Load::nothing().with_route(routes[n - 1]),
                true,
            ),
            Packing::Failed { route, bytes } => Packing::Failed { route, bytes },
        }
    }
}

/// The parts in the end. There is always one.
pub open spec fn closed_parts(done: Seq<Load>, cur: Load) -> Seq<Load> {
    if !cur.is_empty() || done.len() == 0 {
        done.push(cur)
    } else {
        done
    }
}

/// The removals of a list of parts, in order.
pub open spec fn all_removed(parts: Seq<Load>) -> Seq<Seq<char>>
    decreases parts.len(),
{
    if parts.len() == 0 {
        Seq::empty()
    } else {
        all_removed(parts.drop_last()) + parts.last().removed
    }
}

/// The routes of a list of parts, in order.
pub open spec fn all_routes(parts: Seq<Load>) -> Seq<(Seq<char>, Seq<char>, Seq<char>)>
    decreases parts.len(),
{
    if parts.len() == 0 {
        Seq::empty()
    } else {
        all_routes(parts.drop_last()) + parts.last().routes
    }
}

proof fn all_of_push(parts: Seq<Load>, p: Load)
    ensures
        all_removed(parts.push(p)) == all_removed(parts) + p.removed,
        all_routes(parts.push(p)) == all_routes(parts) + p.routes,
{
    assert(parts.push(p).drop_last() =~= parts);
}

/// What the packing holds so far.
pub open spec fn holds(
    st: Packing,
    removed: Seq<Seq<char>>,
    routes: Seq<(Seq<char>, Seq<char>, Seq<char>)>,
) -> bool {
    st matches Packing::Going { done, cur } ==> all_removed(done.push(cur)) == removed && all_routes(
        done.push(cur),
    ) == routes
}

/// Every full part holds something and is small enough, and so is the current one,
/// unless nothing was packed yet.
pub open spec fn all_fit(len_of: spec_fn(int, Load) -> int, budget: int, st: Packing) -> bool {
    st matches Packing::Going { done, cur } ==> (forall|i: int|
        0 <= i < done.len() ==> len_of(i, #[trigger] done[i]) <= budget && !done[i].is_empty())
        && if cur.is_empty() {
        done.len() == 0
    } else {
        len_of(done.len() as int, cur) <= budget
    }
}

proof fn pack_one_keeps(
    len_of: spec_fn(int, Load) -> int,
    budget: int,
    done: Seq<Load>,
    cur: Load,
    removed: Seq<Seq<char>>,
    routes: Seq<(Seq<char>, Seq<char>, Seq<char>)>,
    v: Seq<char>,
    r: (Seq<char>, Seq<char>, Seq<char>),
    route: bool,
)
    requires
        holds(Packing::Going { done, cur }, removed, routes),
        all_fit(len_of, budget, Packing::Going { done, cur }),
    ensures
        ({
            let with = if route {
                cur.with_route(r)
            } else {
                cur.with_removed(v)
            };
            let alone = if route {
                Load::nothing().with_route(r)
            } else {
                Load::nothing().with_removed(v)
            };
            let st = pack_one(len_of, budget, done, cur, with, alone, route);
            &&& all_fit(len_of, budget, st)
            &&& holds(
                st,
                if route {
                    removed
                } else {
                    removed.push(v)
                },
                if route {
                    routes.push(r)
                } else {
                    routes
                },
            )
        }),
{
    let with = if route {
        cur.with_route(r)
    } else {
        cur.with_removed(v)
    };
    let alone = if route {
        Load::nothing().with_route(r)
    } else {
        Load::nothing().with_removed(v)
    };
    all_of_push(done, cur);
    all_of_push(done, with);
    all_of_push(done, alone);
    all_of_push(done.push(cur), alone);
    let d = if cur.is_empty() {
        done
    } else {
        done.push(cur)
    };
    if len_of(done.len() as int, with) <= budget {
        assert(all_removed(done.push(with)) =~= if route {
            removed
        } else {
            removed.push(v)
        });
        assert(all_routes(done.push(with)) =~= if route {
            routes.push(r)
        } else {
            routes
        });
    } else if len_of(d.len() as int, alone) <= budget {
        if cur.is_empty() {
            assert(cur.removed =~= Seq::empty());
            assert(cur.routes =~= Seq::empty());
            assert(all_removed(done) =~= removed);
            assert(all_routes(done) =~= routes);
        }
        assert(all_removed(d.push(alone)) =~= if route {
            removed
        } else {
            removed.push(v)
        });
        assert(all_routes(d.push(alone)) =~= if route {
            routes.push(r)
        } else {
            routes
        });
    }
}

proof fn pack_removed_keeps(
    len_of: spec_fn(int, Load) -> int,
    budget: int,
    removed: Seq<Seq<char>>,
    n: nat,
)
    requires
        n <= removed.len(),
    ensures
        holds(pack_removed(len_of, budget, removed, n), removed.take(n as int), Seq::empty()),
        all_fit(len_of, budget, pack_removed(len_of, budget, removed, n)),
    decreases n,
{
    if n == 0 {
        all_of_push(Seq::empty(), Load::nothing());
        assert(removed.take(0) =~= Seq::empty());
        assert(all_removed(Seq::<Load>::empty().push(Load::nothing())) =~= Seq::empty());
        assert(all_routes(Seq::<Load>::empty().push(Load::nothing())) =~= Seq::empty());
    } else {
        pack_removed_keeps(len_of, budget, removed, (n - 1) as nat);
        let v = removed[n - 1];
        assert(removed.take(n as int) =~= removed.take(n - 1).push(v));
        match pack_removed(len_of, budget, removed, (n - 1) as nat) {
            Packing::Going { done, cur } => {
                pack_one_keeps(
                    len_of,
                    budget,
                    done,
                    cur,
                    removed.take(n - 1),
                    Seq::empty(),
                    v,
                    (Seq::empty(), Seq::empty(), Seq::empty()),
                    false,
                );
            },
            Packing::Failed { .. } => {},
        }
    }
}

proof fn pack_routes_keeps(
    len_of: spec_fn(int, Load) -> int,
    budget: int,
    removed: Seq<Seq<char>>,
    routes: Seq<(Seq<char>, Seq<char>, Seq<char>)>,
    n: nat,
)
    requires
        n <= routes.len(),
    ensures
        holds(pack_routes(len_of, budget, removed, routes, n), removed, routes.take(n as int)),
        all_fit(len_of, budget, pack_routes(len_of, budget, removed, routes, n)),
    decreases n,
{
    if n == 0 {
        pack_removed_keeps(len_of, budget, removed, removed.len());
        assert(removed.take(removed.len() as int) =~= removed);
        assert(routes.take(0) =~= Seq::empty());
    } else {
        pack_routes_keeps(len_of, budget, removed, routes, (n - 1) as nat);
        let r = routes[n - 1];
        assert(routes.take(n as int) =~= routes.take(n - 1).push(r));
        match pack_routes(len_of, budget, removed, routes, (n - 1) as nat) {
            Packing::Going { done, cur } => {
                pack_one_keeps(
                    len_of,
                    budget,
                    done,
                    cur,
                    removed,
                    routes.take(n - 1),
                    Seq::empty(),
                    r,
                    true,
                );
            },
            Packing::Failed { .. } => {},
        }
    }
}

/// The parts of a sync hold its removals and its routes, each in order and
/// nothing else. No part is too large, and none is empty, save the one of an empty
/// sync.
pub proof fn packing_keeps_everything(
    len_of: spec_fn(int, Load) -> int,
    budget: int,
    removed: Seq<Seq<char>>,
    routes: Seq<(Seq<char>, Seq<char>, Seq<char>)>,
)
    ensures
        pack_routes(len_of, budget, removed, routes, routes.len()) matches Packing::Going {
            done,
            cur,
        } ==> {
            let parts = closed_parts(done, cur);
            &&& parts.len() >= 1
            &&& all_removed(parts) == removed
            &&& all_routes(parts) == routes
            &&& removed.len() + routes.len() > 0 ==> forall|i: int|
                0 <= i < parts.len() ==> len_of(i, #[trigger] parts[i]) <= budget
                    && !parts[i].is_empty()
            &&& removed.len() + routes.len() == 0 ==> parts == seq![Load::nothing()]
        },
{
    pack_routes_keeps(len_of, budget, removed, routes, routes.len());
    assert(routes.take(routes.len() as int) =~= routes);
    match pack_routes(len_of, budget, removed, routes, routes.len()) {
        Packing::Going { done, cur } => {
            all_of_push(done, cur);
            if cur.is_empty() {
                assert(cur.removed =~= Seq::empty());
                assert(cur.routes =~= Seq::empty());
                assert(done =~= Seq::empty());
                assert(removed =~= Seq::empty());
                assert(routes =~= Seq::empty());
                assert(done.push(cur) =~= seq![Load::nothing()]);
            } else {
                if removed.len() + routes.len() == 0 {
                    assert(all_removed(done) + cur.removed == removed);
                    assert(all_routes(done) + cur.routes == routes);
                    assert(cur.removed.len() == 0 && cur.routes.len() == 0);
                }
            }
        },
        Packing::Failed { .. } => {},
    }
}

/// The loads of a list of parts.
pub open spec fn loads(v: Seq<PartLoad>) -> Seq<Load> {
    Seq::new(v.len(), |i: int| v[i]@)
}

/// Why the packing failed.
pub struct EntryTooLarge {
    pub route: bool,
    pub bytes: usize,
}

/// Cuts a sync into parts. `size` says how large a part is at a place.
pub fn pack_epoch<F: Fn(usize, &PartLoad) -> usize>(
    size: F,
    routes: &Vec<MsynRouteItem>,
    removed: &Vec<String>,
    budget: usize,
    Ghost(len_of): Ghost<spec_fn(int, Load) -> int>,
) -> (out: Result<Vec<PartLoad>, EntryTooLarge>)
    requires
        forall|i: usize, p: PartLoad| #[trigger] call_requires(size, (i, &p)),
        forall|i: usize, p: PartLoad, n: usize| #[trigger]
            call_ensures(size, (i, &p), n) ==> n == len_of(i as int, p@),
    ensures
        ({
            let st = pack_routes(
                len_of,
                budget as int,
                engine_data::names(removed@),
                items(routes@),
                routes@.len(),
            );
            match out {
                Ok(parts) => st matches Packing::Going { done, cur } && loads(parts@)
                    == closed_parts(done, cur) && parts@.len() <= routes@.len() + removed@.len()
                    + 1,
                Err(e) => st matches Packing::Failed { route, bytes } && e.route == route && e.bytes
                    == bytes,
            }
        }),
{
    let ghost names = engine_data::names(removed@);
    let ghost its = items(routes@);
    let mut done: Vec<PartLoad> = Vec::new();
    let mut cur = PartLoad { routes: Vec::new(), removed: Vec::new() };
    proof {
        assert(loads(done@) =~= Seq::<Load>::empty());
        assert(cur@ =~= Load::nothing());
    }
    let mut i: usize = 0;
    while i < removed.len()
        invariant
            i <= removed@.len(),
            names == engine_data::names(removed@),
            its == items(routes@),
            done@.len() <= i,
            forall|k: usize, p: PartLoad| #[trigger] call_requires(size, (k, &p)),
            forall|k: usize, p: PartLoad, n: usize| #[trigger]
                call_ensures(size, (k, &p), n) ==> n == len_of(k as int, p@),
            pack_removed(len_of, budget as int, names, i as nat) == (Packing::Going {
                done: loads(done@),
                cur: cur@,
            }),
        decreases removed@.len() - i,
    {
        let ghost c0 = cur@;
        let ghost d0 = loads(done@);
        let ghost rn = cur.removed@;
        proof {
            assert(names[i as int] == removed@[i as int]@);
        }
        cur.removed.push(removed[i].clone());
        proof {
            assert(cur@ =~= c0.with_removed(names[i as int]));
        }
        if size(done.len(), &cur) > budget {
            let _ = cur.removed.pop();
            proof {
                assert(cur.removed@ =~= rn);
                assert(cur@ =~= c0);
            }
            let mut alone = PartLoad { routes: Vec::new(), removed: Vec::new() };
            alone.removed.push(removed[i].clone());
            proof {
                assert(alone@ =~= Load::nothing().with_removed(names[i as int]));
            }
            if cur.routes.len() > 0 || cur.removed.len() > 0 {
                done.push(cur);
                proof {
                    assert(loads(done@) =~= d0.push(c0));
                }
            }
            let n: usize = size(done.len(), &alone);
            if n > budget {
                proof {
                    failure_sticks(len_of, budget as int, names, its, i + 1, its.len());
                }
                return Err(EntryTooLarge { route: false, bytes: n });
            }
            cur = alone;
        }
        i += 1;
    }
    let mut j: usize = 0;
    while j < routes.len()
        invariant
            j <= routes@.len(),
            names == engine_data::names(removed@),
            its == items(routes@),
            done@.len() <= removed@.len() + j,
            forall|k: usize, p: PartLoad| #[trigger] call_requires(size, (k, &p)),
            forall|k: usize, p: PartLoad, n: usize| #[trigger]
                call_ensures(size, (k, &p), n) ==> n == len_of(k as int, p@),
            pack_routes(len_of, budget as int, names, its, j as nat) == (Packing::Going {
                done: loads(done@),
                cur: cur@,
            }),
        decreases routes@.len() - j,
    {
        let ghost c0 = cur@;
        let ghost d0 = loads(done@);
        let ghost rn = cur.routes@;
        proof {
            assert(its[j as int] == routes@[j as int]@);
        }
        cur.routes.push(routes[j].clone());
        proof {
            assert(cur@ =~= c0.with_route(its[j as int]));
        }
        if size(done.len(), &cur) > budget {
            let _ = cur.routes.pop();
            proof {
                assert(cur.routes@ =~= rn);
                assert(cur@ =~= c0);
            }
            let mut alone = PartLoad { routes: Vec::new(), removed: Vec::new() };
            alone.routes.push(routes[j].clone());
            proof {
                assert(alone@ =~= Load::nothing().with_route(its[j as int]));
            }
            if cur.routes.len() > 0 || cur.removed.len() > 0 {
                done.push(cur);
                proof {
                    assert(loads(done@) =~= d0.push(c0));
                }
            }
            let n: usize = size(done.len(), &alone);
            if n > budget {
                proof {
                    route_failure_sticks(
                        len_of,
                        budget as int,
                        names,
                        its,
                        (j + 1) as nat,
                        its.len(),
                    );
                }
                return Err(EntryTooLarge { route: true, bytes: n });
            }
            cur = alone;
        }
        j += 1;
    }
    if cur.routes.len() > 0 || cur.removed.len() > 0 || done.len() == 0 {
        let ghost c0 = cur@;
        let ghost d0 = loads(done@);
        done.push(cur);
        proof {
            assert(loads(done@) =~= d0.push(c0));
        }
    }
    Ok(done)
}

/// Once an entry is too large the packing has failed.
proof fn failure_sticks(
    len_of: spec_fn(int, Load) -> int,
    budget: int,
    removed: Seq<Seq<char>>,
    routes: Seq<(Seq<char>, Seq<char>, Seq<char>)>,
    k: int,
    n: nat,
)
    requires
        0 <= k <= removed.len(),
        pack_removed(len_of, budget, removed, k as nat) is Failed,
    ensures
        pack_routes(len_of, budget, removed, routes, n) == pack_removed(
            len_of,
            budget,
            removed,
            k as nat,
        ),
    decreases n, removed.len() - k,
{
    if k < removed.len() {
        failure_sticks(len_of, budget, removed, routes, k + 1, n);
    } else if n > 0 {
        failure_sticks(len_of, budget, removed, routes, k, (n - 1) as nat);
    }
}

proof fn route_failure_sticks(
    len_of: spec_fn(int, Load) -> int,
    budget: int,
    removed: Seq<Seq<char>>,
    routes: Seq<(Seq<char>, Seq<char>, Seq<char>)>,
    k: nat,
    n: nat,
)
    requires
        k <= n,
        pack_routes(len_of, budget, removed, routes, k) is Failed,
    ensures
        pack_routes(len_of, budget, removed, routes, n) == pack_routes(
            len_of,
            budget,
            removed,
            routes,
            k,
        ),
    decreases n,
{
    if k < n {
        route_failure_sticks(len_of, budget, removed, routes, k, (n - 1) as nat);
    }
}

/// From this number of parts on, the number has two digits.
pub const PARTS_TWO_DIGITS: usize = 10;

/// The text of the part at `idx` of `total`.
pub open spec fn part_at(h: EpochHeader, p: Load, idx: int, total: int) -> Seq<char> {
    part_json(h, idx as u32, total as u32, p.routes, p.removed)
}

/// The size of a part of a sync with few parts: its place and the number of parts
/// have one digit.
pub open spec fn short_len(h: EpochHeader) -> spec_fn(int, Load) -> int {
    |i: int, p: Load| encode_utf8(part_at(h, p, 0, 1)).len() as int
}

/// The size of a part at its place in a sync with ten parts or more.
pub open spec fn long_len(h: EpochHeader) -> spec_fn(int, Load) -> int {
    |i: int, p: Load| encode_utf8(part_at(h, p, i, PARTS_TWO_DIGITS as int)).len() as int
}

/// The parts that a packing comes to.
pub open spec fn parts_of(st: Packing) -> Seq<Load> {
    match st {
        Packing::Going { done, cur } => closed_parts(done, cur),
        Packing::Failed { .. } => Seq::empty(),
    }
}

/// How a sync is packed: with numbers of one digit, and where that comes to ten
/// parts or more, anew with two.
pub open spec fn packed(
    h: EpochHeader,
    routes: Seq<(Seq<char>, Seq<char>, Seq<char>)>,
    removed: Seq<Seq<char>>,
    budget: int,
) -> Packing {
    let few = pack_routes(short_len(h), budget, removed, routes, routes.len());
    if PARTS_TWO_DIGITS <= parts_of(few).len() <= MSYN_ASSEMBLE_MAX_PARTS_TOTAL {
        pack_routes(long_len(h), budget, removed, routes, routes.len())
    } else {
        few
    }
}

/// What the cutting of a sync comes to.
pub open spec fn sharded(
    h: EpochHeader,
    routes: Seq<(Seq<char>, Seq<char>, Seq<char>)>,
    removed: Seq<Seq<char>>,
    budget: int,
    out: Result<Vec<String>, ShardError>,
) -> bool {
    if routes.len() > MSYN_APPLY_MAX_ROUTES || removed.len() > MSYN_APPLY_MAX_REMOVED {
        out matches Err(ShardError::EpochTooLarge { routes: r, removed: v }) && r == routes.len()
            && v == removed.len()
    } else {
        match packed(h, routes, removed, budget) {
            Packing::Failed { route, bytes } => out matches Err(
                ShardError::EntryTooLarge { kind, bytes: b },
            ) && b == bytes && kind@ == (if route {
                "route"@
            } else {
                "removed"@
            }),
            Packing::Going { done, cur } => {
                let parts = closed_parts(done, cur);
                if parts.len() > MSYN_ASSEMBLE_MAX_PARTS_TOTAL {
                    out matches Err(ShardError::TooManyParts { parts: n }) && n == parts.len()
                } else {
                    &&& out matches Ok(texts) && texts@.len() == parts.len() && forall|i: int|
                        0 <= i < texts@.len() ==> (#[trigger] texts@[i])@ == part_at(
                            h,
                            parts[i],
                            i,
                            parts.len() as int,
                        ) && (routes.len() + removed.len() > 0 ==> encode_utf8(texts@[i]@).len()
                            <= budget)
                }
            },
        }
    }
}

fn too_large(e: EntryTooLarge) -> (out: ShardError)
    ensures
        out matches ShardError::EntryTooLarge { kind, bytes } && bytes == e.bytes && kind@ == (
        if e.route {
            "route"@
        } else {
            "removed"@
        }),
{
    let kind: &'static str = if e.route {
        "route"
    } else {
        "removed"
    };
    ShardError::EntryTooLarge { kind, bytes: e.bytes }
}

/// Cuts a sync into parts of at most `budget` bytes: first its removals, then its
/// routes, each into the current part as long as there is room. Only the part of an
/// empty sync may be longer.
pub fn shard_msyn_epoch(
    from_rev: u64,
    to_rev: u64,
    sync_id: u64,
    routes: &Vec<MsynRouteItem>,
    removed: &Vec<String>,
    budget: usize,
) -> (out: Result<Vec<String>, ShardError>)
    ensures
        sharded(
            EpochHeader { from_rev, to_rev, sync_id },
            items(routes@),
            engine_data::names(removed@),
            budget as int,
            out,
        ),
        routes@.len() + removed@.len() > 0 ==> (out matches Ok(parts) ==> forall|i: int|
            0 <= i < parts@.len() ==> encode_utf8((#[trigger] parts@[i])@).len() <= budget),
{
    if routes.len() > MSYN_APPLY_MAX_ROUTES || removed.len() > MSYN_APPLY_MAX_REMOVED {
        return Err(ShardError::EpochTooLarge { routes: routes.len(), removed: removed.len() });
    }
    let h = EpochHeader { from_rev, to_rev, sync_id };
    let short = |i: usize, p: &PartLoad| -> (n: usize)
        ensures
            n == short_len(h)(i as int, p@),
        {
            let text: String = serialize_part(h, 0, 1, &p.routes, &p.removed);
            let bytes: &[u8] = text.as_str().as_bytes();
            bytes.len()
        };
    let few: Vec<PartLoad> = match pack_epoch(
        short,
        routes,
        removed,
        budget,
        Ghost(short_len(h)),
    ) {
        Ok(p) => p,
        Err(e) => {
            return Err(too_large(e));
        },
    };
    let ghost names = engine_data::names(removed@);
    let ghost its = items(routes@);
    proof {
        packing_keeps_everything(short_len(h), budget as int, names, its);
        packing_keeps_everything(long_len(h), budget as int, names, its);
    }
    if few.len() as u64 > MSYN_ASSEMBLE_MAX_PARTS_TOTAL {
        return Err(ShardError::TooManyParts { parts: few.len() as u32 });
    }
    if few.len() < PARTS_TWO_DIGITS {
        return Ok(texts_of(h, few, budget, Ghost(short_len(h))));
    }
    let long = |i: usize, p: &PartLoad| -> (n: usize)
        ensures
            n == long_len(h)(i as int, p@),
        {
            let text: String = serialize_part(
                h,
                i as u32,
                PARTS_TWO_DIGITS as u32,
                &p.routes,
                &p.removed,
            );
            let bytes: &[u8] = text.as_str().as_bytes();
            bytes.len()
        };
    let many: Vec<PartLoad> = match pack_epoch(long, routes, removed, budget, Ghost(long_len(h))) {
        Ok(p) => p,
        Err(e) => {
            return Err(too_large(e));
        },
    };
    if many.len() as u64 > MSYN_ASSEMBLE_MAX_PARTS_TOTAL {
        return Err(ShardError::TooManyParts { parts: many.len() as u32 });
    }
    Ok(texts_of(h, many, budget, Ghost(long_len(h))))
}

/// Writes the parts of a sync. They are as long as they were measured, or shorter
/// where there are fewer than ten after all.
fn texts_of(
    h: EpochHeader,
    parts: Vec<PartLoad>,
    budget: usize,
    Ghost(len_of): Ghost<spec_fn(int, Load) -> int>,
) -> (out: Vec<String>)
    requires
        parts@.len() <= MSYN_ASSEMBLE_MAX_PARTS_TOTAL,
        len_of == long_len(h) || (len_of == short_len(h) && parts@.len() < PARTS_TWO_DIGITS),
    ensures
        out@.len() == parts@.len(),
        forall|i: int|
            0 <= i < out@.len() ==> (#[trigger] out@[i])@ == part_at(
                h,
                loads(parts@)[i],
                i,
                parts@.len() as int,
            ) && (len_of(i, loads(parts@)[i]) <= budget ==> encode_utf8(out@[i]@).len() <= budget),
{
    let ghost ls = loads(parts@);
    let total: u32 = parts.len() as u32;
    let mut out: Vec<String> = Vec::new();
    let mut i: u32 = 0;
    while (i as usize) < parts.len()
        invariant
            i <= parts@.len(),
            parts@.len() == total,
            total <= 64,
            len_of == long_len(h) || (len_of == short_len(h) && total < 10),
            ls == loads(parts@),
            out@.len() == i,
            forall|k: int|
                0 <= k < i ==> (#[trigger] out@[k])@ == part_at(h, ls[k], k, total as int) && (
                len_of(k, ls[k]) <= budget ==> encode_utf8(out@[k]@).len() <= budget),
        decreases parts@.len() - i,
    {
        let text: String = serialize_part(
            h,
            i,
            total,
            &parts[i as usize].routes,
            &parts[i as usize].removed,
        );
        proof {
            let p = ls[i as int];
            assert(p == parts@[i as int]@);
            reveal_with_fuel(digits, 3);
            let a = part_json(h, i, 10, p.routes, p.removed);
            let b = part_json(h, 0, 1, p.routes, p.removed);
            assert(long_len(h)(i as int, p) == encode_utf8(a).len());
            assert(short_len(h)(i as int, p) == encode_utf8(b).len());
        }
        out.push(text);
        i += 1;
    }
    out
}

/// The routes that changed after revision `last`.
pub open spec fn changed_items(rows: Seq<RouteSyncRow>, last: u64, n: nat) -> Seq<
    (Seq<char>, Seq<char>, Seq<char>),
>
    decreases n,
{
    if n == 0 {
        Seq::empty()
    } else {
        let rest = changed_items(rows, last, (n - 1) as nat);
        if rows[n - 1].last_modified_revision > last {
            rest.push(rows[n - 1].item())
        } else {
            rest
        }
    }
}

/// The routes that are not stale.
pub open spec fn live_items(rows: Seq<RouteSyncRow>, n: nat) -> Seq<
    (Seq<char>, Seq<char>, Seq<char>),
>
    decreases n,
{
    if n == 0 {
        Seq::empty()
    } else {
        let rest = live_items(rows, (n - 1) as nat);
        if rows[n - 1].state is Stale {
            rest
        } else {
            rest.push(rows[n - 1].item())
        }
    }
}

/// Cuts what changed since a peer was served into parts; nothing where nothing
/// changed.
pub fn build_msyn_delta_shards(
    last: u64,
    current_rev: u64,
    sync_id: u64,
    snapshot: &Vec<RouteSyncRow>,
    tombs: &Vec<(String, u64)>,
    pending: Option<&NameSet>,
    budget: usize,
) -> (out: Result<Option<Vec<String>>, ShardError>)
    requires
        pending is Some ==> pending->0.wf(),
    ensures
        ({
            let routes = changed_items(snapshot@, last, snapshot@.len());
            let removed = owed_list(last, tombs@, owned(pending));
            let h = EpochHeader { from_rev: last, to_rev: current_rev, sync_id };
            match out {
                Ok(None) => routes.len() == 0 && removed.len() == 0,
                Ok(Some(parts)) => !(routes.len() == 0 && removed.len() == 0) && sharded(
                    h,
                    routes,
                    removed,
                    budget as int,
                    Ok(parts),
                ),
                Err(e) => !(routes.len() == 0 && removed.len() == 0) && sharded(
                    h,
                    routes,
                    removed,
                    budget as int,
                    Err(e),
                ),
            }
        }),
{
    let mut routes: Vec<MsynRouteItem> = Vec::new();
    let mut i: usize = 0;
    proof {
        assert(items(routes@) =~= Seq::empty());
    }
    while i < snapshot.len()
        invariant
            i <= snapshot@.len(),
            items(routes@) == changed_items(snapshot@, last, i as nat),
        decreases snapshot@.len() - i,
    {
        if snapshot[i].last_modified_revision > last {
            let ghost before = items(routes@);
            routes.push(MsynRouteItem::from_sync_row(&snapshot[i]));
            proof {
                assert(items(routes@) =~= before.push(snapshot@[i as int].item()));
            }
        }
        i += 1;
    }
    let removed: Vec<String> = collect_removed_vips(last, tombs, pending);
    if routes.len() == 0 && removed.len() == 0 {
        return Ok(None);
    }
    match shard_msyn_epoch(last, current_rev, sync_id, &routes, &removed, budget) {
        Ok(parts) => Ok(Some(parts)),
        Err(e) => Err(e),
    }
}

/// Cuts a complete sync into parts.
pub fn build_msyn_full_shards(
    to_rev: u64,
    sync_id: u64,
    routes: &Vec<MsynRouteItem>,
    removed: &Vec<String>,
    budget: usize,
) -> (out: Result<Vec<String>, ShardError>)
    ensures
        sharded(
            EpochHeader { from_rev: 0, to_rev, sync_id },
            items(routes@),
            engine_data::names(removed@),
            budget as int,
            out,
        ),
{
    shard_msyn_epoch(0, to_rev, sync_id, routes, removed, budget)
}

/// The routes for a complete sync.
pub fn routes_from_snapshot_non_stale(snapshot: &Vec<RouteSyncRow>) -> (out: Vec<MsynRouteItem>)
    ensures
        items(out@) == live_items(snapshot@, snapshot@.len()),
        forall|i: int|
            0 <= i < snapshot@.len() && !((#[trigger] snapshot@[i]).state is Stale) ==> exists|
                j: int,
            |
                0 <= j < out@.len() && (#[trigger] out@[j]).vip@ == snapshot@[i].vip@ && out@[j].ep@
                    == snapshot@[i].endpoint@ && out@[j].node_id@ == snapshot@[i].node_id@,
        forall|j: int|
            0 <= j < out@.len() ==> exists|i: int|
                0 <= i < snapshot@.len() && !((#[trigger] snapshot@[i]).state is Stale) && (
                #[trigger] out@[j]).vip@ == snapshot@[i].vip@ && out@[j].ep@
                    == snapshot@[i].endpoint@ && out@[j].node_id@ == snapshot@[i].node_id@,
{
    let mut out: Vec<MsynRouteItem> = Vec::new();
    let mut i: usize = 0;
    proof {
        assert(items(out@) =~= Seq::empty());
    }
    while i < snapshot.len()
        invariant
            i <= snapshot@.len(),
            items(out@) == live_items(snapshot@, i as nat),
            forall|k: int|
                0 <= k < i && !((#[trigger] snapshot@[k]).state is Stale) ==> exists|j: int|
                    0 <= j < out@.len() && (#[trigger] out@[j]).vip@ == snapshot@[k].vip@
                        && out@[j].ep@ == snapshot@[k].endpoint@ && out@[j].node_id@
                        == snapshot@[k].node_id@,
            forall|j: int|
                0 <= j < out@.len() ==> exists|k: int|
                    0 <= k < snapshot@.len() && !((#[trigger] snapshot@[k]).state is Stale) && (
                    #[trigger] out@[j]).vip@ == snapshot@[k].vip@ && out@[j].ep@
                        == snapshot@[k].endpoint@ && out@[j].node_id@ == snapshot@[k].node_id@,
        decreases snapshot@.len() - i,
    {
        if snapshot[i].state != RouteState::Stale {
            let ghost before = items(out@);
            let ghost old_out = out@;
            out.push(MsynRouteItem::from_sync_row(&snapshot[i]));
            proof {
                assert(items(out@) =~= before.push(snapshot@[i as int].item()));
                assert forall|k: int|
                    0 <= k < i + 1 && !((#[trigger] snapshot@[k]).state is Stale) implies exists|
                    j: int,
                |
                    0 <= j < out@.len() && (#[trigger] out@[j]).vip@ == snapshot@[k].vip@
                        && out@[j].ep@ == snapshot@[k].endpoint@ && out@[j].node_id@
                        == snapshot@[k].node_id@ by {
                    if k < i {
                        let j = choose|j: int|
                            0 <= j < old_out.len() && (#[trigger] old_out[j]).vip@
                                == snapshot@[k].vip@ && old_out[j].ep@ == snapshot@[k].endpoint@
                                && old_out[j].node_id@ == snapshot@[k].node_id@;
                        assert(out@[j] == old_out[j]);
                    } else {
                        assert(out@[old_out.len() as int].vip@ == snapshot@[k].vip@);
                    }
                }
                assert forall|j: int| 0 <= j < out@.len() implies exists|k: int|
                    0 <= k < snapshot@.len() && !((#[trigger] snapshot@[k]).state is Stale) && (
                    #[trigger] out@[j]).vip@ == snapshot@[k].vip@ && out@[j].ep@
                        == snapshot@[k].endpoint@ && out@[j].node_id@ == snapshot@[k].node_id@ by {
                    if j < old_out.len() {
                        assert(out@[j] == old_out[j]);
                    } else {
                        assert(!(snapshot@[i as int].state is Stale));
                    }
                }
            }
        }
        i += 1;
    }
    out
}

/// What a peer gets.
pub enum PeerSync {
    /// It is served already.
    UpToDate,
    /// Nothing changed for it, so it counts as served now.
    Advanced,
    /// What it should get cannot be sent.
    Failed(ShardError),
    /// These parts, which tell of these removals.
    Parts { parts: Vec<String>, delivered: Vec<String> },
}

/// The places of the first `n` rows whose peers are served: those that are not
/// stale.
pub open spec fn served_rows(snapshot: Seq<RouteSyncRow>, n: nat) -> Seq<usize>
    decreases n,
{
    if n == 0 {
        Seq::empty()
    } else {
        let rest = served_rows(snapshot, (n - 1) as nat);
        if snapshot[n - 1].state is Stale {
            rest
        } else {
            rest.push((n - 1) as usize)
        }
    }
}

/// The places of the rows whose peers a sync goes to. Only an owner syncs.
pub fn rows_to_serve(is_owner: bool, snapshot: &Vec<RouteSyncRow>) -> (out: Vec<usize>)
    ensures
        out@ == if is_owner {
            served_rows(snapshot@, snapshot@.len())
        } else {
            Seq::empty()
        },
{
    let mut out: Vec<usize> = Vec::new();
    if !is_owner {
        return out;
    }
    let mut i: usize = 0;
    while i < snapshot.len()
        invariant
            i <= snapshot@.len(),
            out@ == served_rows(snapshot@, i as nat),
        decreases snapshot@.len() - i,
    {
        match snapshot[i].state {
            RouteState::Stale => {},
            _ => {
                out.push(i);
            },
        }
        i += 1;
    }
    out
}

impl SyncState {
    /// What is noted for `peer`.
    pub open spec fn noted_for(&self, peer: Seq<char>) -> Option<NameSet> {
        if self.peer_pending_removals@.dom().contains(peer) {
            Some(self.peer_pending_removals@[peer])
        } else {
            None
        }
    }

    /// All removals that are noted for some peer.
    pub fn noted_removals(&self) -> (out: NameSet)
        requires
            self.wf(),
        ensures
            out.wf(),
            forall|v: Seq<char>| #[trigger]
                out@.contains(v) <==> exists|p: Seq<char>| #[trigger]
                    engine_state::owed_to(self.peer_pending_removals@, p).contains(v),
    {
        let ghost s = self.peer_pending_removals.entries@;
        let mut out: NameSet = NameSet::new();
        let mut i: usize = 0;
        while i < self.peer_pending_removals.entries.len()
            invariant
                self.wf(),
                s == self.peer_pending_removals.entries@,
                i <= s.len(),
                out.wf(),
                forall|v: Seq<char>| #[trigger]
                    out@.contains(v) <==> exists|j: int|
                        0 <= j < i && (#[trigger] s[j]).1@.contains(v),
            decreases s.len() - i,
        {
            proof {
                table::map_of_at(s, i as int);
                engine_state::sets_wf_at(self.peer_pending_removals, s[i as int].0@);
            }
            let ghost o0 = out@;
            out.add_all(&self.peer_pending_removals.entries[i].1);
            proof {
                assert forall|v: Seq<char>| #[trigger] out@.contains(v) <==> exists|j: int|
                    0 <= j < i + 1 && (#[trigger] s[j]).1@.contains(v) by {
                    if o0.contains(v) {
                        let j = choose|j: int| 0 <= j < i && (#[trigger] s[j]).1@.contains(v);
                        assert(s[j].1@.contains(v));
                    }
                }
            }
            i += 1;
        }
        proof {
            assert forall|v: Seq<char>| #[trigger] out@.contains(v) <==> exists|p: Seq<char>|
                #[trigger] engine_state::owed_to(self.peer_pending_removals@, p).contains(v) by {
                if out@.contains(v) {
                    let j = choose|j: int| 0 <= j < s.len() && (#[trigger] s[j]).1@.contains(v);
                    table::map_of_at(s, j);
                    assert(engine_state::owed_to(self.peer_pending_removals@, s[j].0@).contains(v));
                }
                if exists|p: Seq<char>| #[trigger]
                    engine_state::owed_to(self.peer_pending_removals@, p).contains(v) {
                    let p = choose|p: Seq<char>| #[trigger]
                        engine_state::owed_to(self.peer_pending_removals@, p).contains(v);
                    let j = choose|j: int| table::key_at(s, p, j);
                    table::map_of_at(s, j);
                    assert(s[j].1@.contains(v));
                }
            }
        }
        out
    }

    /// What the peer `peer` gets next, and under which number.
    pub fn plan_peer_sync(
        &mut self,
        peer: &String,
        current_rev: u64,
        snapshot: &Vec<RouteSyncRow>,
        routes_full: &Vec<MsynRouteItem>,
        tombs: &Vec<(String, u64)>,
        budget: usize,
    ) -> (out: PeerSync)
        requires
            old(self).wf(),
        ensures
            final(self).wf(),
            *final(self) == (SyncState {
                peer_sync_state: final(self).peer_sync_state,
                next_msyn_sync_id: final(self).next_msyn_sync_id,
                ..*old(self)
            }),
            ({
                let last = old(self).served(peer@);
                let pending = old(self).noted_for(peer@);
                let full = last == 0;
                let h = EpochHeader {
                    from_rev: last,
                    to_rev: current_rev,
                    sync_id: old(self).next_msyn_sync_id,
                };
                let routes = if full {
                    items(routes_full@)
                } else {
                    changed_items(snapshot@, last, snapshot@.len())
                };
                let removed = owed_list(last, tombs@, pending);
                match out {
                    PeerSync::UpToDate => last == current_rev && *final(self) == *old(self),
                    PeerSync::Advanced => {
                        &&& last != current_rev
                        &&& !full
                        &&& routes.len() == 0
                        &&& removed.len() == 0
                        &&& !owes(last, tombs@, pending)
                        &&& final(self).peer_sync_state@ == old(self).peer_sync_state@.insert(
                            peer@,
                            current_rev,
                        )
                    },
                    PeerSync::Failed(e) => {
                        &&& last != current_rev
                        &&& full || routes.len() > 0 || removed.len() > 0
                        &&& sharded(h, routes, removed, budget as int, Err(e))
                        &&& final(self).peer_sync_state == old(self).peer_sync_state
                    },
                    PeerSync::Parts { parts, delivered } => {
                        &&& last != current_rev
                        &&& full || routes.len() > 0 || removed.len() > 0
                        &&& sharded(h, routes, removed, budget as int, Ok(parts))
                        &&& engine_data::names(delivered@) == removed
                        &&& final(self).peer_sync_state == old(self).peer_sync_state
                    },
                }
            }),
            !(out is UpToDate) ==> final(self).next_msyn_sync_id == if old(self).next_msyn_sync_id
                == u64::MAX {
                u64::MAX
            } else {
                (old(self).next_msyn_sync_id + 1) as u64
            },
    {
        let last: u64 = self.served_rev(peer);
        if last == current_rev {
            return PeerSync::UpToDate;
        }
        let sync_id: u64 = self.take_sync_id();
        proof {
            if self.peer_pending_removals@.dom().contains(peer@) {
                engine_state::sets_wf_at(self.peer_pending_removals, peer@);
            }
        }
        let pending: Option<&NameSet> = self.peer_pending_removals.get(peer);
        let delivered: Vec<String> = collect_removed_vips(last, tombs, pending);
        if last == 0 {
            return match build_msyn_full_shards(
                current_rev,
                sync_id,
                routes_full,
                &delivered,
                budget,
            ) {
                Ok(parts) => PeerSync::Parts { parts, delivered },
                Err(e) => PeerSync::Failed(e),
            };
        }
        match build_msyn_delta_shards(
            last,
            current_rev,
            sync_id,
            snapshot,
            tombs,
            pending,
            budget,
        ) {
            Ok(Some(parts)) => PeerSync::Parts { parts, delivered },
            Ok(None) => {
                proof {
                    owes_nothing_iff_list_empty(last, tombs@, old(self).noted_for(peer@));
                }
                self.peer_sync_state.insert(peer.clone(), current_rev);
                PeerSync::Advanced
            },
            Err(e) => PeerSync::Failed(e),
        }
    }

    /// A sync went out to `peer`, as a whole where `sync_ok` holds. Tells
    /// whether the peer counts as served now.
    pub fn finish_peer_sync(
        &mut self,
        peer: &String,
        current_rev: u64,
        sync_ok: bool,
        delivered: &Vec<String>,
    ) -> (advanced: bool)
        requires
            old(self).wf(),
        ensures
            final(self).wf(),
            *final(self) == (SyncState {
                peer_sync_state: final(self).peer_sync_state,
                peer_pending_removals: final(self).peer_pending_removals,
                ..*old(self)
            }),
            advanced == (sync_ok && forall|v: Seq<char>| #[trigger]
                engine_state::owed_to(old(self).peer_pending_removals@, peer@).contains(v)
                    ==> engine_data::names(delivered@).contains(v)),
            final(self).peer_sync_state@ == if advanced {
                old(self).peer_sync_state@.insert(peer@, current_rev)
            } else {
                old(self).peer_sync_state@
            },
            forall|p: Seq<char>, v: Seq<char>| #[trigger]
                engine_state::owed_to(final(self).peer_pending_removals@, p).contains(v) <==> (
                engine_state::owed_to(old(self).peer_pending_removals@, p).contains(v) && !(sync_ok
                    && p == peer@ && engine_data::names(delivered@).contains(v))),
    {
        let ghost t0 = self.peer_pending_removals;
        if !sync_ok {
            return false;
        }
        proof {
            if t0@.dom().contains(peer@) {
                engine_state::sets_wf_at(t0, peer@);
            }
        }
        let mut empty: bool = true;
        match self.peer_pending_removals.remove(peer) {
            Some(mut set) => {
                let ghost set0 = set@;
                clear_pending_delivered(&mut set, delivered);
                empty = set.is_empty();
                proof {
                    if empty {
                        assert forall|v: Seq<char>| #[trigger] engine_state::owed_to(
                            t0@,
                            peer@,
                        ).contains(v) implies engine_data::names(delivered@).contains(v) by {
                            assert(!set@.contains(v));
                        }
                    } else {
                        assert(exists|v: Seq<char>| set@.contains(v)) by {
                            if forall|v: Seq<char>| !set@.contains(v) {
                                assert(set@ =~= Set::<Seq<char>>::empty());
                            }
                        }
                        let v = choose|v: Seq<char>| set@.contains(v);
                        assert(engine_state::owed_to(t0@, peer@).contains(v));
                        assert(!engine_data::names(delivered@).contains(v));
                    }
                }
                let ghost t1 = self.peer_pending_removals;
                let ghost sv = set;
                self.peer_pending_removals.insert(peer.clone(), set);
                proof {
                    let t = self.peer_pending_removals;
                    assert(!t1@.dom().contains(peer@));
                    assert forall|i: int| 0 <= i < t.entries@.len() implies (
                    #[trigger] t.entries@[i]).1.wf() by {
                        if i < t1.entries@.len() {
                            assert(t.entries@[i] == t1.entries@[i]);
                            table::map_of_at(t1.entries@, i);
                            engine_state::sets_wf_at(t0, t1.entries@[i].0@);
                        }
                    }
                    assert forall|p: Seq<char>, v: Seq<char>| #[trigger]
                        engine_state::owed_to(t@, p).contains(v) <==> (engine_state::owed_to(
                            t0@,
                            p,
                        ).contains(v) && !(p == peer@ && engine_data::names(
                            delivered@,
                        ).contains(v))) by {
                        if p == peer@ {
                            assert(t@[p] == sv);
                            assert(sv@.contains(v) <==> (set0.contains(v) && !engine_data::names(
                                delivered@,
                            ).contains(v)));
                        }
                    }
                }
            },
            None => {
                proof {
                    assert(self.peer_pending_removals@ =~= t0@);
                }
            },
        }
        if empty {
            self.peer_sync_state.insert(peer.clone(), current_rev);
        }
        empty
    }
}

/// Once everything that is noted for a peer was delivered, the peer counts as
/// served.
pub proof fn delivery_of_owed_list_suffices(
    last: u64,
    tombs: Seq<(String, u64)>,
    pending: Option<NameSet>,
    v: Seq<char>,
)
    requires
        pending is Some ==> pending->0.wf(),
        noted(pending).contains(v),
    ensures
        owed_list(last, tombs, pending).contains(v),
{
    owed_list_exact(last, tombs, pending, v);
}

} // verus!
