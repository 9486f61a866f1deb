use floatnet::addr::{Endpoint, IpAddr};
use floatnet::claim::{
    accept_wire_claim_vip, claim_vip_valid, local_loses_vip_conflict, member_host_ipv4,
    member_host_vip, node_id_wins, pick_free_vip, random_member_vip_in_unit, resolve_member_vip,
    vip_in_floatunit_subnet,
};
use floatnet::claim_gossip::{
    build_gossip_digest, build_gossip_digest_rotated, claim_still_live, install_fight_suppress,
    install_leave_tombstone, leave_tombstone_blocks, merge_claim, prune_fight_suppress,
    prune_leave_tombstones, remove_claim, remove_claims_for_vip, rotate_endpoints,
    select_leave_tombs_for_gossip, settle_duplicate_vips, should_reroll_for_vip_fight,
    stale_allows_ep_refresh, ClaimRecord, FightSuppress, LeaveTombstone, MergeOutcome,
    FIGHT_SUPPRESS_TTL, LEAVE_TOMBSTONE_TTL,
};
use floatnet::keys::Key;
use floatnet::table::Table;

/// The key of a unit, and the subnet that comes of it.
fn key(byte: u8) -> Key {
    Key { bytes: [byte; 32], subnet24: (10, byte, byte.wrapping_add(1)) }
}

fn rec(id: &str, vip: &str, epoch: u64) -> ClaimRecord {
    ClaimRecord {
        node_id: id.to_string(),
        vip: vip.to_string(),
        vip_epoch: epoch,
        ep_hints: vec![],
    }
}

fn claims() -> Table<String, ClaimRecord> {
    Table::new()
}

fn tombs() -> Table<String, LeaveTombstone> {
    Table::new()
}

fn fights() -> Table<String, FightSuppress> {
    Table::new()
}

fn at<'a>(map: &'a Table<String, ClaimRecord>, id: &str) -> &'a ClaimRecord {
    map.get(&id.to_string()).unwrap()
}

#[test]
fn lower_node_id_wins() {
    assert!(node_id_wins("a", "b"));
    assert!(!node_id_wins("b", "a"));
    assert!(local_loses_vip_conflict("bbb", "aaa"));
    assert!(!local_loses_vip_conflict("aaa", "bbb"));
    assert!(!local_loses_vip_conflict("same", "same"));
}

#[test]
fn pick_free_skips_occupied() {
    let base = "10.1.1.5";
    let got = pick_free_vip(base, |c: &str| c == "10.1.1.5" || c.ends_with(".1")).unwrap();
    assert_ne!(got, "10.1.1.5");
    assert!(!got.ends_with(".1"));
    assert!(claim_vip_valid(&got));
}

#[test]
fn pick_free_gives_up() {
    assert!(pick_free_vip("10.1.1.5", |_c: &str| true).is_none());
    assert!(pick_free_vip("10.1.1", |_c: &str| false).is_none());
    assert_eq!(pick_free_vip("10.1.1.5", |_c: &str| false).unwrap(), "10.1.1.203");
}

#[test]
fn claim_vip_rejects_junk() {
    assert!(!claim_vip_valid(""));
    assert!(!claim_vip_valid("10.0.0.0"));
    assert!(!claim_vip_valid("10.0.0.255"));
    assert!(claim_vip_valid("10.0.0.2"));
}

#[test]
fn same_key_same_subnet() {
    let k = key(0x42);
    let vip = random_member_vip_in_unit(&k);
    assert!(vip_in_floatunit_subnet(&k, &vip));
    assert!(vip.starts_with("10."));
    let other = key(0x43);
    assert!(vip_in_floatunit_subnet(&other, &random_member_vip_in_unit(&other)));
    assert!(!vip_in_floatunit_subnet(&other, &vip));
}

#[test]
fn random_members_differ() {
    let k = key(0x42);
    let first = random_member_vip_in_unit(&k);
    assert!((0..400).any(|_| random_member_vip_in_unit(&k) != first));
}

#[test]
fn units_without_claims_still_have_hosts() {
    let k = Key { bytes: [7; 32], subnet24: (127, 0, 0) };
    let vip = random_member_vip_in_unit(&k);
    let host: u8 = vip.strip_prefix("127.0.0.").unwrap().parse().unwrap();
    assert!((1..=254).contains(&host));
    assert!(!vip_in_floatunit_subnet(&k, &vip));
    let (vip, bumped) = resolve_member_vip(&k, "127.0.0.9");
    assert!(bumped);
    assert!(vip.starts_with("127.0.0."));
}

#[test]
fn resolve_replaces_out_of_unit() {
    let k = key(0x11);
    let (vip, bumped) = resolve_member_vip(&k, "203.0.113.9");
    assert!(bumped);
    assert!(vip_in_floatunit_subnet(&k, &vip));
    let (same, bumped2) = resolve_member_vip(&k, &vip);
    assert!(!bumped2);
    assert_eq!(same, vip);
}

#[test]
fn accept_wire_requires_unit_subnet_when_keyed() {
    let k = key(0xAB);
    let in_unit = member_host_vip(&k, 7);
    assert!(accept_wire_claim_vip(Some(&k), &in_unit));
    let p = k.subnet24;
    let wrong_subnet = format!("{}.{}.{}.7", p.0, p.1.wrapping_add(1), p.2);
    assert!(!accept_wire_claim_vip(Some(&k), &wrong_subnet));
    assert!(!accept_wire_claim_vip(Some(&k), "203.0.113.9"));
    assert!(accept_wire_claim_vip(None, "10.1.1.7"));
    assert!(!accept_wire_claim_vip(None, "10.1.1.0"));
}

#[test]
fn member_hosts_have_an_address() {
    let k = key(3);
    assert_eq!(member_host_vip(&k, 7), "10.3.4.7");
    assert_eq!(member_host_vip(&k, 0), "10.3.4.1");
    assert_eq!(member_host_vip(&k, 255), "10.3.4.1");
    assert_eq!(member_host_ipv4(&k, 7), 0x0A030407);
}

#[test]
fn epoch_lww_accepts_newer() {
    let mut map = claims();
    let tombs = tombs();
    let mut suppress = fights();
    let now = 1_000;
    assert_eq!(
        merge_claim(&mut map, rec("aaa", "10.0.0.2", 0), &tombs, &mut suppress, now),
        MergeOutcome::Accepted
    );
    assert_eq!(
        merge_claim(&mut map, rec("aaa", "10.0.0.3", 1), &tombs, &mut suppress, now),
        MergeOutcome::Accepted
    );
    assert_eq!(at(&map, "aaa").vip, "10.0.0.3");
    assert_eq!(at(&map, "aaa").vip_epoch, 1);
}

#[test]
fn epoch_lww_ignores_stale() {
    let mut map = claims();
    let tombs = tombs();
    let mut suppress = fights();
    let now = 1_000;
    merge_claim(&mut map, rec("aaa", "10.0.0.3", 5), &tombs, &mut suppress, now);
    assert_eq!(
        merge_claim(&mut map, rec("aaa", "10.0.0.2", 4), &tombs, &mut suppress, now),
        MergeOutcome::IgnoredStale
    );
    assert_eq!(at(&map, "aaa").vip, "10.0.0.3");
}

#[test]
fn equal_epoch_same_vip_noop() {
    let mut map = claims();
    let tombs = tombs();
    let mut suppress = fights();
    let now = 1_000;
    merge_claim(&mut map, rec("aaa", "10.0.0.2", 1), &tombs, &mut suppress, now);
    assert_eq!(
        merge_claim(&mut map, rec("aaa", "10.0.0.2", 1), &tombs, &mut suppress, now),
        MergeOutcome::IgnoredStale
    );
}

#[test]
fn equal_epoch_conflicting_vip_keeps_existing() {
    let mut map = claims();
    let tombs = tombs();
    let mut suppress = fights();
    let now = 1_000;
    merge_claim(&mut map, rec("aaa", "10.0.0.2", 1), &tombs, &mut suppress, now);
    assert_eq!(
        merge_claim(&mut map, rec("aaa", "10.0.0.9", 1), &tombs, &mut suppress, now),
        MergeOutcome::IgnoredStale
    );
    assert_eq!(at(&map, "aaa").vip, "10.0.0.2");
}

#[test]
fn new_hints_alone_are_no_news() {
    let mut map = claims();
    let tombs = tombs();
    let mut suppress = fights();
    merge_claim(&mut map, rec("aaa", "10.0.0.2", 1), &tombs, &mut suppress, 0);
    let hinted = |epoch| {
        let mut r = rec("aaa", "10.0.0.2", epoch);
        r.ep_hints = vec!["1.2.3.4:5".to_string()];
        r
    };
    assert_eq!(
        merge_claim(&mut map, hinted(1), &tombs, &mut suppress, 0),
        MergeOutcome::IgnoredStale
    );
    assert!(at(&map, "aaa").ep_hints.is_empty());
    assert_eq!(
        merge_claim(&mut map, hinted(2), &tombs, &mut suppress, 0),
        MergeOutcome::Accepted
    );
    assert_eq!(at(&map, "aaa").ep_hints, vec!["1.2.3.4:5".to_string()]);
}

#[test]
fn claims_of_a_node_come_in_either_order() {
    let tombs = tombs();
    for (first, second) in [(2, 7), (7, 2), (3, 3)] {
        let mut map = claims();
        let mut suppress = fights();
        merge_claim(&mut map, rec("aaa", "10.0.0.9", 3), &tombs, &mut suppress, 0);
        for epoch in [first, second] {
            let vip = format!("10.0.0.{epoch}");
            merge_claim(&mut map, rec("aaa", &vip, epoch), &tombs, &mut suppress, 0);
        }
        let want = if first == 3 { ("10.0.0.9", 3) } else { ("10.0.0.7", 7) };
        assert_eq!((at(&map, "aaa").vip.as_str(), at(&map, "aaa").vip_epoch), want);
    }
}

#[test]
fn vip_fight_lower_node_wins() {
    assert!(should_reroll_for_vip_fight("bbb", "10.0.0.5", "aaa", "10.0.0.5"));
    assert!(!should_reroll_for_vip_fight("aaa", "10.0.0.5", "bbb", "10.0.0.5"));
    assert!(!should_reroll_for_vip_fight("aaa", "10.0.0.5", "bbb", "10.0.0.6"));
}

#[test]
fn settle_drops_lex_loser() {
    let mut map = claims();
    map.insert("bbb".into(), rec("bbb", "10.0.0.5", 0));
    map.insert("aaa".into(), rec("aaa", "10.0.0.5", 0));
    map.insert("ccc".into(), rec("ccc", "10.0.0.6", 0));
    let losers = settle_duplicate_vips(&mut map);
    assert!(losers.contains(&"bbb".to_string()));
    assert!(!map.contains_key(&"bbb".to_string()));
    assert!(map.contains_key(&"aaa".to_string()));
    assert!(map.contains_key(&"ccc".to_string()));
    assert_eq!(losers.len(), 1);
    assert!(settle_duplicate_vips(&mut map).is_empty());
}

#[test]
fn digest_rotates_past_first_n() {
    let mut map = claims();
    let tombs = tombs();
    let now = 1_000;
    for i in 0..5u8 {
        let id = format!("n{i}");
        map.insert(id.clone(), rec(&id, &format!("10.0.0.{}", i + 1), 0));
    }
    let own = rec("zzz", "10.0.0.9", 1);
    let dig0 = build_gossip_digest_rotated(&own, &map, &tombs, now, 2, 0);
    let dig2 = build_gossip_digest_rotated(&own, &map, &tombs, now, 2, 2);
    assert_eq!(dig0[1].node_id, "n0");
    assert_eq!(dig0[2].node_id, "n1");
    assert_eq!(dig2[1].node_id, "n2");
    assert_eq!(dig2[2].node_id, "n3");
    let wrap = build_gossip_digest_rotated(&own, &map, &tombs, now, 2, 9);
    assert_eq!(wrap[1].node_id, "n4");
    assert_eq!(wrap[2].node_id, "n0");
}

#[test]
fn tombstone_blocks_stale_reclaim() {
    let mut map = claims();
    let mut tombs = tombs();
    let mut suppress = fights();
    let now = 1_000;
    assert!(install_leave_tombstone(&mut tombs, "aaa", "10.0.0.2", 3, now, LEAVE_TOMBSTONE_TTL));
    assert_eq!(
        merge_claim(&mut map, rec("aaa", "10.0.0.2", 3), &tombs, &mut suppress, now),
        MergeOutcome::BlockedByTombstone
    );
    assert_eq!(
        merge_claim(&mut map, rec("aaa", "10.0.0.2", 2), &tombs, &mut suppress, now),
        MergeOutcome::BlockedByTombstone
    );
    assert!(leave_tombstone_blocks(&tombs, "aaa", 3, now));
    assert!(!leave_tombstone_blocks(&tombs, "aaa", 3, now + LEAVE_TOMBSTONE_TTL));
    assert!(!install_leave_tombstone(&mut tombs, "", "10.0.0.2", 3, now, 5));
    assert!(!install_leave_tombstone(&mut tombs, "bbb", "10.0.0.255", 3, now, 5));
}

#[test]
fn newer_epoch_after_tombstone_allowed_when_expired() {
    let mut map = claims();
    let mut tombs = tombs();
    let mut suppress = fights();
    let now = 1_000;
    install_leave_tombstone(&mut tombs, "aaa", "10.0.0.2", 3, now, 1);
    let later = now + 1_000;
    prune_leave_tombstones(&mut tombs, later);
    assert!(tombs.is_empty());
    assert_eq!(
        merge_claim(&mut map, rec("aaa", "10.0.0.4", 4), &tombs, &mut suppress, later),
        MergeOutcome::Accepted
    );
}

#[test]
fn newer_epoch_beats_active_tombstone() {
    let mut map = claims();
    let mut tombs = tombs();
    let mut suppress = fights();
    let now = 1_000;
    install_leave_tombstone(&mut tombs, "aaa", "10.0.0.2", 3, now, LEAVE_TOMBSTONE_TTL);
    assert_eq!(
        merge_claim(&mut map, rec("aaa", "10.0.0.4", 4), &tombs, &mut suppress, now),
        MergeOutcome::Accepted
    );
}

#[test]
fn fight_suppress_blocks_identical_triple() {
    let mut map = claims();
    let tombs = tombs();
    let mut suppress = fights();
    let now = 1_000;
    assert!(install_fight_suppress(&mut suppress, "bbb", "10.0.0.5", 0, now, FIGHT_SUPPRESS_TTL));
    assert_eq!(
        merge_claim(&mut map, rec("bbb", "10.0.0.5", 0), &tombs, &mut suppress, now),
        MergeOutcome::BlockedByFight
    );
    assert_eq!(
        merge_claim(&mut map, rec("bbb", "10.0.0.5", 1), &tombs, &mut suppress, now),
        MergeOutcome::Accepted
    );
    map.clear();
    assert_eq!(
        merge_claim(&mut map, rec("bbb", "10.0.0.6", 0), &tombs, &mut suppress, now),
        MergeOutcome::Accepted
    );
}

#[test]
fn fight_suppress_prunes_on_expiry() {
    let mut map = claims();
    let tombs = tombs();
    let mut suppress = fights();
    let now = 1_000;
    install_fight_suppress(&mut suppress, "bbb", "10.0.0.5", 0, now, 1);
    let later = now + 1_000;
    prune_fight_suppress(&mut suppress, later);
    assert_eq!(
        merge_claim(&mut map, rec("bbb", "10.0.0.5", 0), &tombs, &mut suppress, later),
        MergeOutcome::Accepted
    );
}

#[test]
fn fight_suppress_slides_ttl_on_repeated_block() {
    let mut map = claims();
    let tombs = tombs();
    let mut suppress = fights();
    let t0 = 1_000;
    install_fight_suppress(&mut suppress, "bbb", "10.0.0.5", 0, t0, 50);
    let t1 = t0 + 40;
    assert_eq!(
        merge_claim(&mut map, rec("bbb", "10.0.0.5", 0), &tombs, &mut suppress, t1),
        MergeOutcome::BlockedByFight
    );
    // The first window ended at t0 + 50; the block at t1 opened a new one.
    let t2 = t0 + 80;
    assert_eq!(
        merge_claim(&mut map, rec("bbb", "10.0.0.5", 0), &tombs, &mut suppress, t2),
        MergeOutcome::BlockedByFight
    );
    assert!(suppress.get(&"bbb".to_string()).unwrap().expires_at > t2);
}

#[test]
fn remove_claims_for_vip_drops_all_matching() {
    let mut map = claims();
    map.insert("aaa".into(), rec("aaa", "10.0.0.5", 0));
    map.insert("bbb".into(), rec("bbb", "10.0.0.6", 0));
    map.insert("ccc".into(), rec("ccc", "10.0.0.5", 1));
    let removed = remove_claims_for_vip(&mut map, "10.0.0.5");
    assert_eq!(removed.len(), 2);
    assert!(!map.contains_key(&"aaa".to_string()));
    assert!(!map.contains_key(&"ccc".to_string()));
    assert!(map.contains_key(&"bbb".to_string()));
}

#[test]
fn digest_includes_self_and_sorted_others() {
    let mut map = claims();
    let tombs = tombs();
    let now = 1_000;
    map.insert("ccc".into(), rec("ccc", "10.0.0.3", 0));
    map.insert("bbb".into(), rec("bbb", "10.0.0.2", 0));
    map.insert("aaa".into(), rec("aaa", "10.0.0.1", 0));
    let own = rec("zzz", "10.0.0.9", 1);
    let dig = build_gossip_digest(&own, &map, &tombs, now, 2);
    assert_eq!(dig[0].node_id, "zzz");
    assert_eq!(dig[1].node_id, "aaa");
    assert_eq!(dig[2].node_id, "bbb");
    assert_eq!(dig.len(), 3);
}

#[test]
fn digest_leaves_out_who_left() {
    let mut map = claims();
    let mut tombs = tombs();
    map.insert("aaa".into(), rec("aaa", "10.0.0.1", 0));
    map.insert("bbb".into(), rec("bbb", "10.0.0.2", 0));
    install_leave_tombstone(&mut tombs, "aaa", "10.0.0.1", 0, 0, 1_000);
    let own = rec("zzz", "10.0.0.9", 1);
    let dig = build_gossip_digest(&own, &map, &tombs, 10, 8);
    assert_eq!(dig.len(), 2);
    assert_eq!(dig[1].node_id, "bbb");
}

#[test]
fn reject_invalid_vip() {
    let mut map = claims();
    let tombs = tombs();
    let mut suppress = fights();
    assert_eq!(
        merge_claim(&mut map, rec("aaa", "10.0.0.0", 0), &tombs, &mut suppress, 1_000),
        MergeOutcome::Rejected
    );
    assert_eq!(
        merge_claim(&mut map, rec("", "10.0.0.2", 0), &tombs, &mut suppress, 1_000),
        MergeOutcome::Rejected
    );
}

#[test]
fn order_of_claims_of_different_epochs_is_free() {
    let tombs = tombs();
    let mut suppress = fights();
    let mut a = claims();
    merge_claim(&mut a, rec("aaa", "10.0.0.2", 1), &tombs, &mut suppress, 0);
    merge_claim(&mut a, rec("aaa", "10.0.0.3", 2), &tombs, &mut suppress, 0);
    let mut b = claims();
    merge_claim(&mut b, rec("aaa", "10.0.0.3", 2), &tombs, &mut suppress, 0);
    merge_claim(&mut b, rec("aaa", "10.0.0.2", 1), &tombs, &mut suppress, 0);
    assert_eq!(at(&a, "aaa").vip, at(&b, "aaa").vip);
    assert_eq!(at(&a, "aaa").vip_epoch, at(&b, "aaa").vip_epoch);
}

#[test]
fn last_leavers_are_told_first() {
    let mut tombs = tombs();
    install_leave_tombstone(&mut tombs, "aaa", "10.0.0.1", 0, 0, 100);
    install_leave_tombstone(&mut tombs, "bbb", "10.0.0.2", 0, 0, 300);
    install_leave_tombstone(&mut tombs, "ccc", "10.0.0.3", 0, 0, 200);
    install_leave_tombstone(&mut tombs, "ddd", "10.0.0.4", 0, 0, 10);
    let told = select_leave_tombs_for_gossip(&tombs, 10, 2);
    let ids: Vec<&str> = told.iter().map(|t| t.node_id.as_str()).collect();
    assert_eq!(ids, vec!["bbb", "ccc"]);
    assert_eq!(select_leave_tombs_for_gossip(&tombs, 10, 9).len(), 3);
}

#[test]
fn live_claims_are_found_and_removed() {
    let mut map = claims();
    map.insert("aaa".into(), rec("aaa", "10.0.0.5", 4));
    assert!(claim_still_live(&map, "aaa", "10.0.0.5", 4));
    assert!(!claim_still_live(&map, "aaa", "10.0.0.5", 3));
    assert!(stale_allows_ep_refresh(&map, "aaa", "10.0.0.5", 4));
    assert!(!stale_allows_ep_refresh(&map, "bbb", "10.0.0.5", 4));
    assert_eq!(remove_claim(&mut map, "aaa").unwrap().vip_epoch, 4);
    assert!(remove_claim(&mut map, "aaa").is_none());
}

#[test]
fn endpoints_take_turns() {
    let eps: Vec<Endpoint> =
        (1..=3).map(|p| Endpoint { ip: IpAddr::V4(0x0A000001), port: p }).collect();
    assert_eq!(rotate_endpoints(&eps, 4, 2), vec![eps[1], eps[2]]);
    assert_eq!(rotate_endpoints(&eps, 2, 9), vec![eps[2], eps[0], eps[1]]);
    assert!(rotate_endpoints(&eps, 2, 0).is_empty());
    assert!(rotate_endpoints(&Vec::new(), 2, 2).is_empty());
}
