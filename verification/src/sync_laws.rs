//! What holds of syncs as a whole: what they tell, and how they are cut.

use crate::msyn_sync;
use crate::msyn_sync::{EpochHeader, Load, Packing, RouteSyncRow, ShardError};
use vstd::prelude::*;
use vstd::utf8::*;

verus! {

/// What changed after a revision is told, in its order, each route with its own endpoint
/// and its own node, and nothing else is.
pub proof fn changed_routes_are_told(rows: Seq<RouteSyncRow>, last: u64, n: nat)
    requires
        n <= rows.len(),
    ensures
        msyn_sync::changed_items(rows, last, n) == rows.take(n as int).filter(
            |r: RouteSyncRow| r.last_modified_revision > last,
        ).map_values(|r: RouteSyncRow| (r.vip@, r.endpoint@, r.node_id@)),
    decreases n,
{
    let p = |r: RouteSyncRow| r.last_modified_revision > last;
    let f = |r: RouteSyncRow| (r.vip@, r.endpoint@, r.node_id@);
    reveal(Seq::filter);
    if n == 0 {
        assert(rows.take(0) =~= Seq::<RouteSyncRow>::empty());
        assert(rows.take(0).filter(p).map_values(f) =~= Seq::empty());
    } else {
        changed_routes_are_told(rows, last, (n - 1) as nat);
        let t = rows.take(n as int);
        assert(t.drop_last() =~= rows.take(n - 1));
        assert(t.last() == rows[n - 1]);
        let rest = t.drop_last().filter(p);
        assert(rest.push(t.last()).map_values(f) =~= rest.map_values(f).push(f(t.last())));
    }
}

/// A complete sync tells of all routes that are not stale, in their order, each with its
/// own endpoint and its own node, and of no other.
pub proof fn live_routes_are_told(rows: Seq<RouteSyncRow>, n: nat)
    requires
        n <= rows.len(),
    ensures
        msyn_sync::live_items(rows, n) == rows.take(n as int).filter(
            |r: RouteSyncRow| !(r.state is Stale),
        ).map_values(|r: RouteSyncRow| (r.vip@, r.endpoint@, r.node_id@)),
    decreases n,
{
    let p = |r: RouteSyncRow| !(r.state is Stale);
    let f = |r: RouteSyncRow| (r.vip@, r.endpoint@, r.node_id@);
    reveal(Seq::filter);
    if n == 0 {
        assert(rows.take(0) =~= Seq::<RouteSyncRow>::empty());
        assert(rows.take(0).filter(p).map_values(f) =~= Seq::empty());
    } else {
        live_routes_are_told(rows, (n - 1) as nat);
        let t = rows.take(n as int);
        assert(t.drop_last() =~= rows.take(n - 1));
        assert(t.last() == rows[n - 1]);
        let rest = t.drop_last().filter(p);
        assert(rest.push(t.last()).map_values(f) =~= rest.map_values(f).push(f(t.last())));
    }
}

/// Every peer whose route is not stale is served, once and in the order of the rows, and
/// no other is.
pub proof fn live_peers_are_served(rows: Seq<RouteSyncRow>, n: nat)
    requires
        n <= rows.len() <= usize::MAX,
    ensures
        forall|i: usize| #[trigger]
            msyn_sync::served_rows(rows, n).contains(i) <==> i < n && !(rows[i as int].state is Stale),
        forall|j: int, k: int|
            0 <= j < k < msyn_sync::served_rows(rows, n).len() ==> #[trigger]
                msyn_sync::served_rows(rows, n)[j] < #[trigger] msyn_sync::served_rows(rows, n)[k],
    decreases n,
{
    if n > 0 {
        live_peers_are_served(rows, (n - 1) as nat);
        let s = msyn_sync::served_rows(rows, (n - 1) as nat);
        let t = msyn_sync::served_rows(rows, n);
        assert forall|i: usize| #[trigger] t.contains(i) <==> i < n && !(rows[i as int].state is Stale) by {
            if s.contains(i) {
                let j = choose|j: int| 0 <= j < s.len() && s[j] == i;
                assert(t[j] == i);
            }
            if i == n - 1 && !(rows[i as int].state is Stale) {
                assert(t[s.len() as int] == i);
            }
            if t.contains(i) {
                let j = choose|j: int| 0 <= j < t.len() && t[j] == i;
                if j < s.len() {
                    assert(s[j] == i);
                    assert(s.contains(i));
                }
            }
        }
        assert forall|j: int, k: int| 0 <= j < k < t.len() implies #[trigger] t[j] < #[trigger] t[k] by {
            if k == s.len() {
                assert(s.contains(s[j]));
            }
        }
    }
}

/// The part with the first entry of the next one behind its own: removals stand first.
pub open spec fn with_first_of(p: Load, next: Load) -> Load {
    if next.removed.len() > 0 {
        p.with_removed(next.removed[0])
    } else {
        p.with_route(next.routes[0])
    }
}

/// No part was closed while the next entry had room in it.
spec fn filled(len_of: spec_fn(int, Load) -> int, budget: int, done: Seq<Load>, cur: Load) -> bool {
    &&& forall|i: int|
        0 <= i < done.len() - 1 ==> len_of(i, with_first_of(#[trigger] done[i], done[i + 1]))
            > budget
    &&& done.len() > 0 ==> !cur.is_empty() && len_of(
        done.len() - 1,
        with_first_of(done.last(), cur),
    ) > budget
}

proof fn pack_one_fills(
    len_of: spec_fn(int, Load) -> int,
    budget: int,
    done: Seq<Load>,
    cur: Load,
    with: Load,
    alone: Load,
    route: bool,
)
    requires
        filled(len_of, budget, done, cur),
        route ==> with.routes == cur.routes.push(alone.routes[0]) && with.removed == cur.removed
            && alone.routes.len() == 1 && alone.removed.len() == 0,
        !route ==> cur.routes.len() == 0 && with.removed == cur.removed.push(alone.removed[0])
            && with.routes.len() == 0 && alone.removed.len() == 1 && alone.routes.len() == 0,
    ensures
        msyn_sync::pack_one(len_of, budget, done, cur, with, alone, route) matches Packing::Going {
            done: d,
            cur: c,
        } ==> filled(len_of, budget, d, c) && !c.is_empty() && (!route ==> c.routes.len() == 0),
        msyn_sync::pack_one(len_of, budget, done, cur, with, alone, route) matches Packing::Failed {
            route: r,
            bytes,
        } ==> r == route && bytes > budget && exists|at: int| bytes == #[trigger] len_of(at, alone),
{
    match msyn_sync::pack_one(len_of, budget, done, cur, with, alone, route) {
        Packing::Going { done: d, cur: c } => {
            if c == with {
                if d == done && done.len() > 0 {
                    assert(with_first_of(done.last(), with) == with_first_of(done.last(), cur));
                }
            }
            if d == done.push(cur) && !cur.is_empty() {
                assert(with_first_of(cur, alone).routes =~= with.routes);
                assert(with_first_of(cur, alone).removed =~= with.removed);
                assert(with_first_of(cur, alone) == with);
                assert forall|i: int| 0 <= i < d.len() - 1 implies len_of(
                    i,
                    with_first_of(#[trigger] d[i], d[i + 1]),
                ) > budget by {
                    if i < done.len() - 1 {
                        assert(d[i] == done[i] && d[i + 1] == done[i + 1]);
                    } else {
                        assert(d[i] == done.last() && d[i + 1] == cur);
                    }
                }
            }
        },
        Packing::Failed { .. } => {
            let full = if cur.is_empty() {
                done
            } else {
                done.push(cur)
            };
            assert(len_of(full.len() as int, alone) > budget);
        },
    }
}

proof fn removals_fill(
    len_of: spec_fn(int, Load) -> int,
    budget: int,
    removed: Seq<Seq<char>>,
    n: nat,
)
    requires
        n <= removed.len(),
    ensures
        msyn_sync::pack_removed(len_of, budget, removed, n) matches Packing::Going { done, cur }
            ==> filled(len_of, budget, done, cur) && cur.routes.len() == 0 && (n > 0
            ==> !cur.is_empty()),
        msyn_sync::pack_removed(len_of, budget, removed, n) matches Packing::Failed { route, bytes }
            ==> !route && bytes > budget && exists|i: int, at: int|
            0 <= i < removed.len() && bytes == #[trigger] len_of(
                at,
                Load::nothing().with_removed(removed[i]),
            ),
    decreases n,
{
    if n > 0 {
        removals_fill(len_of, budget, removed, (n - 1) as nat);
        if let Packing::Going { done, cur } = msyn_sync::pack_removed(
            len_of,
            budget,
            removed,
            (n - 1) as nat,
        ) {
            let v = removed[n - 1];
            let alone = Load::nothing().with_removed(v);
            assert(alone.removed[0] == v);
            pack_one_fills(len_of, budget, done, cur, cur.with_removed(v), alone, false);
            if let Packing::Failed { route, bytes } = msyn_sync::pack_removed(
                len_of,
                budget,
                removed,
                n,
            ) {
                let at = choose|at: int| bytes == #[trigger] len_of(at, alone);
                assert(bytes == len_of(at, Load::nothing().with_removed(removed[n - 1])));
            }
        }
    }
}

/// No part is closed as long as the next entry has room in it, so a sync has no more
/// parts than its entries need; and a sync fails only for an entry that is too large for
/// a part of its own.
pub proof fn parts_are_filled(
    len_of: spec_fn(int, Load) -> int,
    budget: int,
    removed: Seq<Seq<char>>,
    routes: Seq<(Seq<char>, Seq<char>, Seq<char>)>,
    n: nat,
)
    requires
        n <= routes.len(),
    ensures
        msyn_sync::pack_routes(len_of, budget, removed, routes, n) matches Packing::Going {
            done,
            cur,
        } ==> {
            let parts = msyn_sync::closed_parts(done, cur);
            forall|i: int|
                0 <= i < parts.len() - 1 ==> len_of(
                    i,
                    with_first_of(#[trigger] parts[i], parts[i + 1]),
                ) > budget
        },
        msyn_sync::pack_routes(len_of, budget, removed, routes, n) matches Packing::Failed {
            route,
            bytes,
        } ==> bytes > budget && if route {
            exists|i: int, at: int|
                0 <= i < routes.len() && bytes == #[trigger] len_of(
                    at,
                    Load::nothing().with_route(routes[i]),
                )
        } else {
            exists|i: int, at: int|
                0 <= i < removed.len() && bytes == #[trigger] len_of(
                    at,
                    Load::nothing().with_removed(removed[i]),
                )
        },
{
    routes_fill(len_of, budget, removed, routes, n);
    if let Packing::Going { done, cur } = msyn_sync::pack_routes(
        len_of,
        budget,
        removed,
        routes,
        n,
    ) {
        let parts = msyn_sync::closed_parts(done, cur);
        assert forall|i: int| 0 <= i < parts.len() - 1 implies len_of(
            i,
            with_first_of(#[trigger] parts[i], parts[i + 1]),
        ) > budget by {
            if i < done.len() - 1 {
                assert(parts[i] == done[i] && parts[i + 1] == done[i + 1]);
            } else {
                assert(parts[i] == done.last());
            }
        }
    }
}

proof fn routes_fill(
    len_of: spec_fn(int, Load) -> int,
    budget: int,
    removed: Seq<Seq<char>>,
    routes: Seq<(Seq<char>, Seq<char>, Seq<char>)>,
    n: nat,
)
    requires
        n <= routes.len(),
    ensures
        msyn_sync::pack_routes(len_of, budget, removed, routes, n) matches Packing::Going {
            done,
            cur,
        } ==> filled(len_of, budget, done, cur),
        msyn_sync::pack_routes(len_of, budget, removed, routes, n) matches Packing::Failed {
            route,
            bytes,
        } ==> bytes > budget && if route {
            exists|i: int, at: int|
                0 <= i < routes.len() && bytes == #[trigger] len_of(
                    at,
                    Load::nothing().with_route(routes[i]),
                )
        } else {
            exists|i: int, at: int|
                0 <= i < removed.len() && bytes == #[trigger] len_of(
                    at,
                    Load::nothing().with_removed(removed[i]),
                )
        },
    decreases n,
{
    if n == 0 {
        removals_fill(len_of, budget, removed, removed.len());
    } else {
        routes_fill(len_of, budget, removed, routes, (n - 1) as nat);
        if let Packing::Going { done, cur } = msyn_sync::pack_routes(
            len_of,
            budget,
            removed,
            routes,
            (n - 1) as nat,
        ) {
            let r = routes[n - 1];
            let alone = Load::nothing().with_route(r);
            assert(alone.routes[0] == r);
            pack_one_fills(len_of, budget, done, cur, cur.with_route(r), alone, true);
            if let Packing::Failed { route, bytes } = msyn_sync::pack_routes(
                len_of,
                budget,
                removed,
                routes,
                n,
            ) {
                let at = choose|at: int| bytes == #[trigger] len_of(at, alone);
                assert(bytes == len_of(at, Load::nothing().with_route(routes[n - 1])));
            }
        }
    }
}

/// What a part says: the versions, the revisions between which the sync leads, the number
/// of the sync, the place of the part and the number of parts, then the routes and the
/// removals.
pub open spec fn part_says(
    h: EpochHeader,
    idx: int,
    total: int,
    routes: Seq<(Seq<char>, Seq<char>, Seq<char>)>,
    removed: Seq<Seq<char>>,
) -> Seq<char> {
    msyn_sync::object_json(
        seq![
            ("proto_ver"@, 4u64),
            ("schema_ver"@, 1u64),
            ("from_rev"@, h.from_rev),
            ("to_rev"@, h.to_rev),
            ("sync_id"@, h.sync_id),
            ("part_idx"@, idx as u64),
            ("parts_total"@, total as u64),
        ],
        "routes"@,
        ("vip"@, "ep"@, "node_id"@),
        routes,
        "removed"@,
        removed,
    )
}

/// The texts of a sync that was cut tell all of its removals and all of its routes, in
/// order, each text under its own place; none is longer than the room, and there are no
/// more than 64. Where a sync is refused, it is too large: as a whole, for the number of
/// its parts, or for one of its entries.
pub proof fn cut_syncs_tell_everything(
    h: EpochHeader,
    routes: Seq<(Seq<char>, Seq<char>, Seq<char>)>,
    removed: Seq<Seq<char>>,
    budget: int,
    out: Result<Vec<String>, ShardError>,
)
    requires
        msyn_sync::sharded(h, routes, removed, budget, out),
    ensures
        match out {
            Ok(texts) => {
                &&& routes.len() <= 1024 && removed.len() <= 1024
                &&& exists|parts: Seq<Load>| #[trigger]
                    parts_tell(h, parts, routes, removed, budget, texts@)
            },
            Err(ShardError::EpochTooLarge { routes: r, removed: v }) => {
                &&& r == routes.len() && v == removed.len()
                &&& r > 1024 || v > 1024
            },
            Err(ShardError::TooManyParts { parts }) => parts > 64
                && routes.len() + removed.len() > 64,
            Err(ShardError::EntryTooLarge { kind, bytes }) => bytes > budget && (kind@ == "route"@
                || kind@ == "removed"@) && routes.len() + removed.len() > 0,
        },
{
    msyn_sync::packing_keeps_everything(msyn_sync::short_len(h), budget, removed, routes);
    msyn_sync::packing_keeps_everything(msyn_sync::long_len(h), budget, removed, routes);
    parts_are_filled(msyn_sync::short_len(h), budget, removed, routes, routes.len());
    parts_are_filled(msyn_sync::long_len(h), budget, removed, routes, routes.len());
    if let Packing::Going { done, cur } = msyn_sync::packed(h, routes, removed, budget) {
        let parts = msyn_sync::closed_parts(done, cur);
        entries_bound_parts(parts);
        if let Ok(texts) = out {
            assert(parts_tell(h, parts, routes, removed, budget, texts@)) by {
                assert forall|i: int| 0 <= i < texts@.len() implies (#[trigger] texts@[i])@
                    == part_says(
                    h,
                    i,
                    texts@.len() as int,
                    parts[i].routes,
                    parts[i].removed,
                ) by {
                    assert(texts@[i]@ == msyn_sync::part_at(h, parts[i], i, parts.len() as int));
                    let n = texts@.len() as int;
                    assert(msyn_sync::part_numbers(h, i as u32, n as u32) =~= seq![
                        ("proto_ver"@, 4u64),
                        ("schema_ver"@, 1u64),
                        ("from_rev"@, h.from_rev),
                        ("to_rev"@, h.to_rev),
                        ("sync_id"@, h.sync_id),
                        ("part_idx"@, i as u64),
                        ("parts_total"@, n as u64),
                    ]);
                }
            }
        }
    }
}

/// The texts are those of the parts, which hold the removals and the routes.
pub open spec fn parts_tell(
    h: EpochHeader,
    parts: Seq<Load>,
    routes: Seq<(Seq<char>, Seq<char>, Seq<char>)>,
    removed: Seq<Seq<char>>,
    budget: int,
    texts: Seq<String>,
) -> bool {
    &&& 1 <= texts.len() <= 64
    &&& parts.len() == texts.len()
    &&& msyn_sync::all_removed(parts) == removed
    &&& msyn_sync::all_routes(parts) == routes
    &&& forall|i: int|
        0 <= i < texts.len() ==> (#[trigger] texts[i])@ == part_says(
            h,
            i,
            texts.len() as int,
            parts[i].routes,
            parts[i].removed,
        )
    &&& routes.len() + removed.len() > 0 ==> forall|i: int|
        0 <= i < texts.len() ==> encode_utf8((#[trigger] texts[i])@).len() <= budget
}

/// Parts that each hold something are no more than what they hold.
proof fn entries_bound_parts(parts: Seq<Load>)
    ensures
        (forall|i: int| 0 <= i < parts.len() ==> !(#[trigger] parts[i]).is_empty()) ==> parts.len()
            <= msyn_sync::all_removed(parts).len() + msyn_sync::all_routes(parts).len(),
    decreases parts.len(),
{
    if parts.len() > 0 {
        let p = parts.drop_last();
        entries_bound_parts(p);
        if forall|i: int| 0 <= i < parts.len() ==> !(#[trigger] parts[i]).is_empty() {
            assert forall|i: int| 0 <= i < p.len() implies !(#[trigger] p[i]).is_empty() by {
                assert(p[i] == parts[i]);
            }
            assert(!parts[parts.len() - 1].is_empty());
        }
    }
}

/// The routes and the removals of a list of parts are those of its parts, one after the
/// other.
pub proof fn parts_one_after_the_other(a: Seq<Load>, p: Load)
    ensures
        msyn_sync::all_routes(a.push(p)) == msyn_sync::all_routes(a) + p.routes,
        msyn_sync::all_removed(a.push(p)) == msyn_sync::all_removed(a) + p.removed,
        msyn_sync::all_routes(Seq::<Load>::empty()).len() == 0,
        msyn_sync::all_removed(Seq::<Load>::empty()).len() == 0,
{
    assert(a.push(p).drop_last() =~= a);
}

} // verus!
