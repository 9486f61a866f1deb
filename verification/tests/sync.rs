use floatnet::addr::{Endpoint, IpAddr};
use floatnet::engine_routes::{MsynRoute, MSYN_APPLY_MAX_ROUTES};
use floatnet::engine_state::SyncState;
use floatnet::msyn_assemble::{
    ingest_msyn_part, sweep_msyn_assemble, MsynAssembleMap, MsynIngestOutcome, MsynPart,
};
use floatnet::msyn_sync::{
    build_msyn_delta_shards, build_msyn_full_shards, clear_pending_delivered, collect_removed_vips,
    effective_msyn_json_budget, peer_owes_removals, routes_from_snapshot_non_stale,
    should_advance_peer_sync, should_advance_peer_sync_after_send, MsynRouteItem, PeerSync,
    RouteSyncRow, ShardError, MSYN_JSON_BUDGET_FLOOR, MSYN_SHARD_WRAP_RESERVE,
};
use floatnet::routing::RouteState;
use floatnet::table::NameSet;
use serde_json::Value;

fn s(text: &str) -> String {
    text.to_string()
}

fn names(list: &[&str]) -> NameSet {
    let mut set = NameSet::new();
    for n in list {
        set.insert(n.to_string());
    }
    set
}

fn local(port: u16) -> Endpoint {
    Endpoint { ip: IpAddr::V4(0x7F00_0001), port }
}

#[test]
fn t1_tomb_rev_gt_last_in_removed() {
    let tombs = vec![("10.0.0.3".to_string(), 6u64)];
    let parts = build_msyn_delta_shards(3, 6, 1, &vec![], &tombs, None, 1200)
        .ok()
        .unwrap()
        .expect("body");
    assert_eq!(parts.len(), 1);
    let v: Value = serde_json::from_str(&parts[0]).unwrap();
    assert_eq!(v.get("proto_ver").and_then(|x| x.as_u64()), Some(4));
    let removed = v.get("removed").and_then(|x| x.as_array()).unwrap();
    assert_eq!(removed.len(), 1);
    assert_eq!(removed[0].as_str(), Some("10.0.0.3"));
}

#[test]
fn t4_pending_only_produces_removed_body() {
    let pending = names(&["10.0.0.5"]);
    let parts = build_msyn_delta_shards(5, 6, 2, &vec![], &vec![], Some(&pending), 1200)
        .ok()
        .unwrap()
        .expect("pending must produce body");
    let v: Value = serde_json::from_str(&parts[0]).unwrap();
    assert!(v.get("routes").and_then(|x| x.as_array()).unwrap().is_empty());
    let removed = v.get("removed").and_then(|x| x.as_array()).unwrap();
    assert_eq!(removed.len(), 1);
    assert_eq!(v.get("part_idx").and_then(|x| x.as_u64()), Some(0));
    assert_eq!(v.get("parts_total").and_then(|x| x.as_u64()), Some(1));
}

#[test]
fn should_not_advance_when_pending_owed() {
    let pending = names(&["10.0.0.5"]);
    assert!(!should_advance_peer_sync(true, 5, &vec![], Some(&pending)));
}

#[test]
fn should_not_advance_when_tomb_owed() {
    let tombs = vec![("10.0.0.3".to_string(), 6u64)];
    assert!(!should_advance_peer_sync(true, 3, &tombs, None));
    assert!(peer_owes_removals(3, &tombs, None));
    assert!(!peer_owes_removals(6, &tombs, None));
}

#[test]
fn should_advance_when_nothing_owed() {
    assert!(should_advance_peer_sync(true, 6, &vec![], None));
}

#[test]
fn after_send_advances_when_pending_empty() {
    assert!(should_advance_peer_sync_after_send(true, None));
    let empty = NameSet::new();
    assert!(should_advance_peer_sync_after_send(true, Some(&empty)));
}

#[test]
fn after_send_blocked_when_pending_nonempty() {
    let pending = names(&["10.0.0.5"]);
    assert!(!should_advance_peer_sync_after_send(true, Some(&pending)));
    assert!(!should_advance_peer_sync_after_send(false, None));
}

fn route_items(n: usize) -> Vec<MsynRouteItem> {
    (0..n)
        .map(|i| MsynRouteItem {
            vip: format!("10.0.0.{}", i + 2),
            ep: format!("198.51.100.{}:4000", i + 1),
            node_id: format!("node-{i}"),
        })
        .collect()
}

#[test]
fn shards_split_under_small_budget() {
    let routes = route_items(20);
    let parts = build_msyn_full_shards(3, 9, &routes, &vec![], 350).ok().unwrap();
    assert!(parts.len() > 1);
    for (i, p) in parts.iter().enumerate() {
        assert!(p.len() <= 350, "part {i} len {}", p.len());
        let v: Value = serde_json::from_str(p).unwrap();
        assert_eq!(v["parts_total"].as_u64(), Some(parts.len() as u64));
        assert_eq!(v["part_idx"].as_u64(), Some(i as u64));
        assert_eq!(v["proto_ver"].as_u64(), Some(4));
    }
}

#[test]
fn shards_hold_every_route_in_order() {
    let routes = route_items(20);
    let removed = vec![s("10.0.0.99"), s("10.0.0.98")];
    let parts = build_msyn_full_shards(3, 9, &routes, &removed, 350).ok().unwrap();
    let mut vips = Vec::new();
    let mut gone = Vec::new();
    for p in &parts {
        let v: Value = serde_json::from_str(p).unwrap();
        for r in v["routes"].as_array().unwrap() {
            vips.push(s(r["vip"].as_str().unwrap()));
            assert!(r["ep"].as_str().unwrap().starts_with("198.51.100."));
        }
        for r in v["removed"].as_array().unwrap() {
            gone.push(s(r.as_str().unwrap()));
        }
    }
    let want: Vec<String> = routes.iter().map(|r| r.vip.clone()).collect();
    assert_eq!(vips, want);
    assert_eq!(gone, removed);
}

#[test]
fn part_text_is_a_json_object_with_sorted_names() {
    let routes = vec![MsynRouteItem {
        vip: s("10.0.0.2"),
        ep: s("198.51.100.7:4000"),
        node_id: s("n\"7"),
    }];
    let removed = vec![s("10.0.0.3")];
    let parts = build_msyn_full_shards(9, 12, &routes, &removed, 1200).ok().unwrap();
    let want = [
        "{\"from_rev\":0,\"part_idx\":0,\"parts_total\":1,\"proto_ver\":4,",
        "\"removed\":[\"10.0.0.3\"],\"routes\":[{\"ep\":\"198.51.100.7:4000\",",
        "\"node_id\":\"n\\\"7\",\"vip\":\"10.0.0.2\"}],",
        "\"schema_ver\":1,\"sync_id\":12,\"to_rev\":9}",
    ]
    .concat();
    assert_eq!(parts, vec![want]);
}

fn equal_items(n: usize) -> Vec<MsynRouteItem> {
    (0..n)
        .map(|i| MsynRouteItem {
            vip: format!("10.0.0.{}", i + 100),
            ep: s("198.51.100.1:4000"),
            node_id: s("node"),
        })
        .collect()
}

#[test]
fn many_parts_stay_within_the_budget() {
    let one = build_msyn_full_shards(3, 9, &equal_items(1), &vec![], 1200).ok().unwrap()[0].len();
    let two = build_msyn_full_shards(3, 9, &equal_items(2), &vec![], 1200).ok().unwrap()[0].len();
    // Two routes fit a part only while its place and the number of parts have one digit.
    let few = build_msyn_full_shards(3, 9, &equal_items(18), &vec![], two).ok().unwrap();
    assert_eq!(few.len(), 9);
    assert!(few.iter().all(|p| p.len() == two));
    let many = build_msyn_full_shards(3, 9, &equal_items(20), &vec![], two).ok().unwrap();
    assert_eq!(many.len(), 20);
    assert!(many.iter().all(|p| p.len() <= two));
    // One byte more is enough for the first ten parts, and two for the others.
    let more = build_msyn_full_shards(3, 9, &equal_items(22), &vec![], two + 1).ok().unwrap();
    assert_eq!(more.len(), 12);
    assert!(more.iter().all(|p| p.len() <= two + 1));
    assert_eq!(more[9].len(), two + 1);
    assert_eq!(more[10].len(), one + 2);
    let all = build_msyn_full_shards(3, 9, &equal_items(22), &vec![], two + 2).ok().unwrap();
    assert_eq!(all.len(), 11);
    assert_eq!(all[10].len(), two + 2);
}

#[test]
fn entries_that_only_fit_few_parts_are_too_large_for_many() {
    let one = build_msyn_full_shards(3, 9, &equal_items(1), &vec![], 1200).ok().unwrap()[0].len();
    assert_eq!(build_msyn_full_shards(3, 9, &equal_items(9), &vec![], one).ok().unwrap().len(), 9);
    assert!(matches!(
        build_msyn_full_shards(3, 9, &equal_items(10), &vec![], one),
        Err(ShardError::EntryTooLarge { kind: "route", bytes }) if bytes == one + 1
    ));
    assert!(matches!(
        build_msyn_full_shards(3, 9, &equal_items(65), &vec![], one),
        Err(ShardError::TooManyParts { parts: 65 })
    ));
}

fn read_part(text: &str) -> MsynPart {
    let v: Value = serde_json::from_str(text).unwrap();
    let number = |key: &str| v[key].as_u64();
    let routes = v["routes"].as_array().unwrap();
    let removed = v["removed"].as_array().unwrap();
    MsynPart {
        proto_ver: number("proto_ver"),
        schema_ver: number("schema_ver"),
        from_rev: number("from_rev"),
        to_rev: number("to_rev"),
        sync_id: number("sync_id"),
        part_idx: number("part_idx"),
        parts_total: number("parts_total"),
        routes: routes
            .iter()
            .map(|r| MsynRoute {
                vip: r["vip"].as_str().map(s),
                ep: None,
                node_id: r["node_id"].as_str().map(s),
            })
            .collect(),
        removed: removed.iter().map(|r| s(r.as_str().unwrap())).collect(),
    }
}

#[test]
fn parts_in_any_order_give_the_sync_back() {
    let routes = route_items(40);
    let removed: Vec<String> = (0..9).map(|i| format!("10.0.1.{i}")).collect();
    let parts = build_msyn_full_shards(3, 9, &routes, &removed, 350).ok().unwrap();
    let n = parts.len();
    assert!(n >= 10);
    for step in [1, n - 1] {
        let mut map = MsynAssembleMap::new();
        for k in 0..n {
            let text = &parts[(3 + k * step) % n];
            let now = 1_000 * (k as u64);
            match ingest_msyn_part(&mut map, local(1), read_part(text), 2, now) {
                MsynIngestOutcome::Complete(done) => {
                    assert_eq!(k, n - 1);
                    let (gone, there) = done.assemble_removed_then_routes();
                    assert_eq!(gone, removed);
                    let vips: Vec<String> = there.iter().map(|r| r.vip.clone().unwrap()).collect();
                    let want: Vec<String> = routes.iter().map(|r| r.vip.clone()).collect();
                    assert_eq!(vips, want);
                }
                MsynIngestOutcome::Buffered { first_part } => {
                    assert!(k < n - 1);
                    assert_eq!(first_part, k == 0);
                }
                MsynIngestOutcome::Ignored => panic!("part {k} was not taken"),
            }
        }
        assert!(map.bufs.is_empty());
    }
}

#[test]
fn msyn_full_shards_use_from_rev_zero() {
    let parts = build_msyn_full_shards(9, 1, &vec![], &vec![], 1200).ok().unwrap();
    assert_eq!(parts.len(), 1);
    let v: Value = serde_json::from_str(&parts[0]).unwrap();
    assert_eq!(v.get("proto_ver").and_then(|x| x.as_u64()), Some(4));
    assert_eq!(v.get("from_rev").and_then(|x| x.as_u64()), Some(0));
    assert_eq!(v.get("to_rev").and_then(|x| x.as_u64()), Some(9));
    assert_eq!(v.get("parts_total").and_then(|x| x.as_u64()), Some(1));
}

fn part(sync_id: u64, part_idx: u64, parts_total: u64) -> MsynPart {
    MsynPart {
        proto_ver: Some(4),
        schema_ver: Some(1),
        from_rev: Some(0),
        to_rev: Some(5),
        sync_id: Some(sync_id),
        part_idx: Some(part_idx),
        parts_total: Some(parts_total),
        routes: vec![],
        removed: vec![],
    }
}

#[test]
fn assemble_removed_then_routes_order() {
    let from = local(1);
    let mut map = MsynAssembleMap::new();
    let now = 1_000;
    let mut p0 = part(1, 0, 2);
    p0.routes = vec![MsynRoute {
        vip: Some(s("10.0.0.2")),
        ep: Some(Endpoint { ip: IpAddr::V4(0x0101_0101), port: 1 }),
        node_id: Some(s("a")),
    }];
    let mut p1 = part(1, 1, 2);
    p1.removed = vec![s("10.0.0.9")];
    assert!(matches!(
        ingest_msyn_part(&mut map, from, p0, 0, now),
        MsynIngestOutcome::Buffered { first_part: true }
    ));
    let MsynIngestOutcome::Complete(done) = ingest_msyn_part(&mut map, from, p1, 0, now) else {
        panic!("expected complete");
    };
    let (removed, routes) = done.assemble_removed_then_routes();
    assert_eq!(removed, vec!["10.0.0.9".to_string()]);
    assert_eq!(routes.len(), 1);
}

#[test]
fn envelope_mismatch_drops_buffer() {
    let from = local(2);
    let mut map = MsynAssembleMap::new();
    let now = 1_000;
    let p0 = part(3, 0, 2);
    let bad = part(3, 1, 3);
    let _ = ingest_msyn_part(&mut map, from, p0, 0, now);
    assert!(matches!(
        ingest_msyn_part(&mut map, from, bad, 0, now),
        MsynIngestOutcome::Ignored
    ));
    assert!(map.get(from, 3).is_none());
}

#[test]
fn parts_that_cannot_be_read_are_ignored() {
    let from = local(2);
    let mut map = MsynAssembleMap::new();
    let mut foreign = part(1, 0, 1);
    foreign.proto_ver = Some(3);
    let mut outside = part(1, 2, 2);
    outside.to_rev = Some(9);
    let mut nameless = part(1, 0, 1);
    nameless.sync_id = None;
    for p in [foreign, outside, nameless, part(1, 0, 0), part(1, 0, 65)] {
        assert!(matches!(
            ingest_msyn_part(&mut map, from, p, 0, 0),
            MsynIngestOutcome::Ignored
        ));
    }
    assert!(matches!(
        ingest_msyn_part(&mut map, from, part(1, 0, 1), 6, 0),
        MsynIngestOutcome::Ignored
    ));
}

#[test]
fn old_buffers_are_swept() {
    let mut map = MsynAssembleMap::new();
    let _ = ingest_msyn_part(&mut map, local(2), part(3, 0, 2), 0, 1_000);
    sweep_msyn_assemble(&mut map, 30_999);
    assert!(map.get(local(2), 3).is_some());
    sweep_msyn_assemble(&mut map, 31_000);
    assert!(map.get(local(2), 3).is_none());
}

#[test]
fn too_many_parts_errors_instead_of_emitting() {
    // One route to a part: 65 parts are one more than can be put together.
    let routes: Vec<_> = (0..65)
        .map(|i| MsynRouteItem {
            vip: format!("10.0.{}.{}", i / 250 + 1, (i % 250) + 2),
            ep: format!("198.51.100.{}:4000", (i % 200) + 1),
            node_id: format!("node-{i}"),
        })
        .collect();
    let err = build_msyn_full_shards(1, 1, &routes, &vec![], 200).err().unwrap();
    assert!(matches!(err, ShardError::TooManyParts { parts: 65 }));
}

#[test]
fn an_entry_too_large_is_told() {
    let routes = vec![MsynRouteItem {
        vip: s("10.0.0.2"),
        ep: s("198.51.100.1:4000"),
        node_id: "n".repeat(400),
    }];
    let err = build_msyn_full_shards(1, 1, &routes, &vec![], 300).err().unwrap();
    assert!(matches!(err, ShardError::EntryTooLarge { .. }));
}

#[test]
fn epoch_over_apply_cap_errors() {
    let routes: Vec<_> = (0..MSYN_APPLY_MAX_ROUTES + 1)
        .map(|i| MsynRouteItem {
            vip: format!("10.{}.{}.{}", (i / 65025) + 1, (i / 255) % 256, i % 255 + 1),
            ep: format!("203.0.113.{}:9", (i % 200) + 1),
            node_id: format!("n{i}"),
        })
        .collect();
    let err = build_msyn_full_shards(1, 1, &routes, &vec![], 1200).err().unwrap();
    assert!(matches!(
        err,
        ShardError::EpochTooLarge { routes: n, .. } if n == MSYN_APPLY_MAX_ROUTES + 1
    ));
}

#[test]
fn effective_json_budget_reserves_wrap() {
    assert_eq!(effective_msyn_json_budget(1200), 1200 - MSYN_SHARD_WRAP_RESERVE);
    assert_eq!(effective_msyn_json_budget(10), MSYN_JSON_BUDGET_FLOOR);
}

#[test]
fn owed_removals_are_collected() {
    let tombs = vec![(s("10.0.0.3"), 6), (s("10.0.0.4"), 2), (s("10.0.0.3"), 7)];
    let pending = names(&["10.0.0.9", "10.0.0.3"]);
    let got = collect_removed_vips(3, &tombs, Some(&pending));
    assert_eq!(got.len(), 2);
    assert!(got.contains(&s("10.0.0.3")));
    assert!(got.contains(&s("10.0.0.9")));
    let mut left = names(&["10.0.0.9", "10.0.0.8"]);
    clear_pending_delivered(&mut left, &vec![s("10.0.0.9")]);
    assert_eq!(left.len(), 1);
    assert!(left.contains(&s("10.0.0.8")));
}

fn row(vip: &str, rev: u64, state: RouteState) -> RouteSyncRow {
    RouteSyncRow {
        vip: s(vip),
        endpoint: s("198.51.100.1:4000"),
        node_id: s("n"),
        last_modified_revision: rev,
        state,
    }
}

#[test]
fn peers_are_served_up_to_a_revision() {
    let mut sync = SyncState::new();
    let peer = s("10.0.0.7");
    let rows = vec![row("10.0.0.2", 3, RouteState::Active), row("10.0.0.3", 4, RouteState::Stale)];
    let full = routes_from_snapshot_non_stale(&rows);
    assert_eq!(full.len(), 1);
    let out = sync.plan_peer_sync(&peer, 4, &rows, &full, &vec![], 1200);
    let (parts, delivered) = match out {
        PeerSync::Parts { parts, delivered } => (parts, delivered),
        _ => panic!("nothing to send"),
    };
    assert_eq!(parts.len(), 1);
    assert!(sync.finish_peer_sync(&peer, 4, true, &delivered));
    assert_eq!(sync.served_rev(&peer), 4);
    assert!(matches!(
        sync.plan_peer_sync(&peer, 4, &rows, &full, &vec![], 1200),
        PeerSync::UpToDate
    ));
    assert!(!sync.finish_peer_sync(&peer, 5, false, &delivered));
    assert_eq!(sync.served_rev(&peer), 4);
}
