use floatnet::addr::{Endpoint, IpAddr};
use floatnet::engine_cmd::{CmdPlan, Engine, EngineCmd};
use floatnet::engine_ctrl::{
    is_metered, jack_mpja_body_valid, join_admitted, ControlStep, JackBody, JackOutcome, JoinPlan, JoinRequest, MsmdEvent,
    MsmdKind, MsmdOutcome, PrxyMsg, PrxyPlan,
};
use floatnet::engine_data::{
    CompactKind, CompactPlan, ControlSeal, MdatPlan, SealPlan, TunPaths, TunPlan,
};
use floatnet::engine_roster::{PeerInfo, RosterChange};
use floatnet::engine_routes::{endpoint_left, Learned, MsynApply, MsynRoute};
use floatnet::engine_rx::{
    fec_retune_needed, ice_pause, order_candidates, plan_announce, plan_mctl, plan_parsed,
    plan_reliable, probe_body, warning_due, AnnouncePlan, FecKnobs, IceCandidate, MctlParts,
    ParsedPlan, ReliablePlan, ReliableSeen, RELIABLE_WARN_LEN,
};
use floatnet::engine_state::{
    next_ctrl_send_counter, next_data_send_counter, EngineState, COUNTER_LIMIT,
};
use floatnet::engine_ticks::{
    announced_within_budget, filter_decentralized_punch_targets, peer_announce_needs_work_unbound,
    peer_route_needs_work, plan_peer_reconnect, prune_reliable_seen_cache,
    reconnect_fastpath_owner_candidate, rotate_batch, unique_ip_peer_vip, MsmdSeen,
    PendingPing, PendingPingKind, PendingPings, ReliableAt, ReliableDedupKey,
    ReliableId, UniqueIpMatch, RELIABLE_CACHE_MAX,
};
use floatnet::keys::{CryptoPool, Key, MAX_EXTRA_KEYS};
use floatnet::mtu_policy::MtuPolicy;
use floatnet::outbound_udp::{plan_keepalives, OutboundUdpClock};
use floatnet::punch_state::{FastpathState, PunchState};
use floatnet::routing::{
    is_valid_sync_endpoint, is_valid_sync_vip, owner_vip_with_prefix, same_subnet, PathKind,
    RelaySelection, RouteState, RoutingTable,
};
use floatnet::stun_votes::{endpoint_of_answer, StunOffer, StunQuery};
use floatnet::table::{NameSet, Table};
use floatnet::wire::{
    allow_unauth_control_tag_with_crypto, data_aad, decode_ping_payload, decode_pong_payload,
    encode_ping_payload, encode_pong_payload, first_free_vip_u32_in_subnet,
    is_broadcast_or_multicast, is_recent_para_ts, is_safe_interface_alias, is_signaling_tag,
    is_udp_message_too_long, looks_like_stun, one_way_delay_ms, src_addr_key, ControlTag,
};

fn v4(a: u8, b: u8, c: u8, d: u8) -> u32 {
    u32::from_be_bytes([a, b, c, d])
}

fn ep(ip: u32, port: u16) -> Endpoint {
    Endpoint { ip: IpAddr::V4(ip), port }
}

fn local(port: u16) -> Endpoint {
    ep(v4(127, 0, 0, 1), port)
}

fn s(text: &str) -> String {
    text.to_string()
}

fn key(byte: u8) -> Key {
    Key { bytes: [byte; 32], subnet24: (10, byte, 1) }
}

fn peer_engine() -> EngineState {
    EngineState::new(false, v4(10, 1, 1, 2), s("n"), 24)
}

fn owner_engine() -> EngineState {
    EngineState::new(true, v4(10, 1, 1, 1), s("o"), 24)
}

fn set_state(rt: &mut RoutingTable, vip: &str, state: RouteState) {
    let i = rt.table.find(&s(vip)).unwrap();
    rt.table.entries[i].1.state = state;
}

fn ipv4_packet(src: u32, dst: u32) -> Vec<u8> {
    let mut p = vec![0u8; 24];
    p[0] = 0x45;
    p[12..16].copy_from_slice(&src.to_be_bytes());
    p[16..20].copy_from_slice(&dst.to_be_bytes());
    p
}

#[test]
fn decode_ping_payload_requires_id_and_ts() {
    let mut buf = [0u8; 16];
    buf[..8].copy_from_slice(&42u64.to_le_bytes());
    buf[8..].copy_from_slice(&1000u64.to_le_bytes());
    assert_eq!(decode_ping_payload(&buf), Some((42, 1000)));

    assert_eq!(decode_ping_payload(&777u64.to_le_bytes()), None);
}

#[test]
fn ping_payload_round_trip() {
    let enc = encode_ping_payload(u64::MAX, 77);
    assert_eq!(enc.len(), 16);
    assert_eq!(decode_ping_payload(&enc), Some((u64::MAX, 77)));
}

#[test]
fn pong_payload_round_trip_and_short_rejected() {
    let enc = encode_pong_payload(7, 1_700_000_000_000, -42);
    assert_eq!(decode_pong_payload(&enc), Some((7, 1_700_000_000_000, -42)));
    assert_eq!(decode_pong_payload(&enc[..16]), None);
    assert_eq!(decode_pong_payload(&enc[..19]), None);
}

#[test]
fn pong_owd_field_matches_recv_minus_sender_ts() {
    let sender_ts = 1_000u64;
    let recv_ts = 1_035u64;
    let owd = one_way_delay_ms(recv_ts, sender_ts);
    let enc = encode_pong_payload(99, sender_ts, owd);
    let decoded = decode_pong_payload(&enc).unwrap();
    assert_eq!(decoded.2, 35);
    assert_eq!(one_way_delay_ms(0, 1_000), -1_000);
}

#[test]
fn first_free_vip_slash24_skips_network_owner_and_broadcast() {
    let my = v4(10, 0, 0, 88);
    let got = first_free_vip_u32_in_subnet(my, 24, |_u: u32| false).unwrap();
    assert_eq!(got, v4(10, 0, 0, 2));
}

#[test]
fn first_free_vip_slash30_peer_when_owner_high() {
    let my = v4(192, 168, 1, 2);
    let got = first_free_vip_u32_in_subnet(my, 30, |_u: u32| false).unwrap();
    assert_eq!(got, v4(192, 168, 1, 1));
}

#[test]
fn first_free_vip_respects_occupied_map() {
    let my = v4(10, 0, 0, 5);
    let occ = [v4(10, 0, 0, 2), v4(10, 0, 0, 3)];
    let got = first_free_vip_u32_in_subnet(my, 24, |u: u32| occ.contains(&u)).unwrap();
    assert_eq!(got, v4(10, 0, 0, 4));
}

#[test]
fn crypto_mode_requires_auth_for_route_learning_tags() {
    assert!(allow_unauth_control_tag_with_crypto(ControlTag::Kpal));
    assert!(allow_unauth_control_tag_with_crypto(ControlTag::Hpch));
    assert!(allow_unauth_control_tag_with_crypto(ControlTag::Hack));
    assert!(allow_unauth_control_tag_with_crypto(ControlTag::Mctl));
    assert!(!allow_unauth_control_tag_with_crypto(ControlTag::Sync));
    assert!(!allow_unauth_control_tag_with_crypto(ControlTag::Kick));
    assert!(is_signaling_tag(ControlTag::Hpch));
    assert!(!is_signaling_tag(ControlTag::Mctl));
}

#[test]
fn hpch_unauth_creates_route_when_crypto_enabled() {
    let mut eng = peer_engine();
    let _ = eng.crypto_keys.set_primary(key(1));
    let from = local(40000);
    assert_eq!(
        eng.learn_route_from_hole_punch_body(b"10.1.1.3", from, false, false, 0),
        Learned::Route { moved_from: None }
    );
    assert_eq!(eng.routing.lookup(&s("10.1.1.3")), Some(from));
}

#[test]
fn hpch_unauth_does_not_hijack_active_peer() {
    let mut eng = peer_engine();
    let _ = eng.crypto_keys.set_primary(key(1));
    let active_ep = local(41000);
    let hijack_ep = local(42000);
    eng.routing.update(&s("10.1.1.5"), active_ep, Some(&s("peer-a")), 0);
    set_state(&mut eng.routing, "10.1.1.5", RouteState::Active);
    assert_eq!(
        eng.learn_route_from_hole_punch_body(b"10.1.1.5", hijack_ep, false, false, 0),
        Learned::Refused
    );
    assert_eq!(eng.routing.lookup(&s("10.1.1.5")), Some(active_ep));
}

#[test]
fn hpch_auth_rebinds_active_peer() {
    let mut eng = peer_engine();
    let active_ep = local(41000);
    let hijack_ep = local(42000);
    eng.routing.update(&s("10.1.1.5"), active_ep, Some(&s("peer-a")), 0);
    set_state(&mut eng.routing, "10.1.1.5", RouteState::Active);
    eng.learn_route_from_hole_punch_body(b"10.1.1.5", hijack_ep, true, true, 0);
    assert_eq!(eng.routing.lookup(&s("10.1.1.5")), Some(hijack_ep));
    assert!(!eng.routing.tracks_endpoint(active_ep));
}

#[test]
fn punches_of_other_subnets_teach_nothing() {
    let mut eng = peer_engine();
    for body in [&b"10.2.1.5"[..], &b"junk"[..], &b"\xff"[..]] {
        assert_eq!(
            eng.learn_route_from_hole_punch_body(body, local(1), false, false, 0),
            Learned::Nothing
        );
    }
    assert!(eng.routing.table.is_empty());
}

#[test]
fn src_addr_key_separates_cgnat_ports() {
    let a = ep(v4(203, 0, 113, 7), 1111);
    let b = ep(v4(203, 0, 113, 7), 2222);
    assert_ne!(src_addr_key(a), src_addr_key(b));
    assert_eq!(src_addr_key(a), src_addr_key(a));
}

fn rid(k: ReliableDedupKey, seq: u32) -> ReliableId {
    ReliableId { key: k, seq }
}

#[test]
fn prune_reliable_seen_prefers_ttl_then_capacity() {
    let now = 1_000_000u64;
    let old = now - 120_000;
    let recent = now - 10_000;
    let ka = ReliableDedupKey::Addr(local(9));
    let kb = ReliableDedupKey::VipU32(v4(10, 0, 0, 2));

    let mut timeline = vec![
        ReliableAt { at: old, id: rid(ka, 1) },
        ReliableAt { at: recent, id: rid(kb, 2) },
    ];
    let mut seen: Table<ReliableId, ()> = Table::new();
    seen.insert(rid(ka, 1), ());
    seen.insert(rid(kb, 2), ());
    prune_reliable_seen_cache(&mut timeline, &mut seen, now);
    assert_eq!(timeline.len(), 1);
    assert!(seen.contains_key(&rid(kb, 2)));
    assert!(!seen.contains_key(&rid(ka, 1)));
}

#[test]
fn prune_reliable_seen_drops_what_is_too_many() {
    let k = ReliableDedupKey::VipU32(1);
    let mut timeline: Vec<ReliableAt> = (0..RELIABLE_CACHE_MAX as u32 + 3)
        .map(|i| ReliableAt { at: 5, id: rid(k, i) })
        .collect();
    let mut seen: Table<ReliableId, ()> = Table::new();
    for i in 0..5 {
        seen.insert(rid(k, i), ());
    }
    prune_reliable_seen_cache(&mut timeline, &mut seen, 5);
    assert_eq!(timeline.len(), RELIABLE_CACHE_MAX);
    assert_eq!(timeline[0].id.seq, 3);
    assert_eq!(seen.len(), 2);
}

#[test]
fn dedup_survives_nat_rebind_same_vip() {
    let now = 1_000_000u64;
    let dk = ReliableDedupKey::VipU32(v4(10, 1, 0, 5));
    let mut timeline = vec![ReliableAt { at: now, id: rid(dk, 7) }];
    let mut seen: Table<ReliableId, ()> = Table::new();
    seen.insert(rid(dk, 7), ());
    seen.insert(rid(dk, 7), ());
    assert_eq!(seen.len(), 1);
    prune_reliable_seen_cache(&mut timeline, &mut seen, now);
    assert_eq!(seen.len(), 1);

    // The peer is told by its address, wherever it is.
    let mut eng = owner_engine();
    eng.routing.update(&s("10.1.1.5"), local(1), None, 0);
    let before = eng.reliable_key(local(1));
    eng.routing.update(&s("10.1.1.5"), local(2), None, 0);
    assert_eq!(eng.reliable_key(local(2)), before);
}

#[test]
fn dedup_separates_cgnat_peers_same_ip_diff_vip() {
    let k1 = ReliableDedupKey::VipU32(v4(10, 0, 0, 2));
    let k2 = ReliableDedupKey::VipU32(v4(10, 0, 0, 3));
    let mut seen = ReliableSeen::new();
    assert!(seen.take_in(k1, 1, 0).0);
    assert!(seen.take_in(k2, 1, 0).0);
    assert_eq!(seen.seen.len(), 2);
}

#[test]
fn dedup_separates_cgnat_same_public_ip_diff_port() {
    let a = ep(v4(203, 0, 113, 1), 1111);
    let b = ep(v4(203, 0, 113, 1), 2222);
    let ka = ReliableDedupKey::Addr(a);
    let kb = ReliableDedupKey::Addr(b);
    let mut seen = ReliableSeen::new();
    assert!(seen.take_in(ka, 5, 0).0);
    assert!(seen.take_in(kb, 5, 0).0);
    assert_eq!(seen.seen.len(), 2);
}

#[test]
fn repeated_packet_is_taken_in_once() {
    let k = ReliableDedupKey::VipU32(9);
    let mut seen = ReliableSeen::new();
    assert_eq!(seen.take_in(k, 5, 0), (true, false));
    assert_eq!(seen.take_in(k, 5, 59_999), (false, false));
    assert_eq!(seen.take_in(k, 5, 60_000), (true, false));
}

#[test]
fn many_remembered_packets_give_a_warning() {
    let k = ReliableDedupKey::VipU32(9);
    let mut seen = ReliableSeen::new();
    for i in 0..RELIABLE_WARN_LEN as u32 {
        let id = rid(k, i);
        seen.timeline.push(ReliableAt { at: 10, id });
    }
    assert_eq!(seen.take_in(k, 1_000_000, 10), (true, true));
    assert_eq!(seen.take_in(k, 1_000_001, 20), (true, false));
    assert!(!warning_due(Some(5), 2_004, 2_000));
    assert!(warning_due(Some(5), 2_005, 2_000));
    assert!(warning_due(None, 0, 2_000));
}

#[test]
fn numbered_packets_are_acknowledged() {
    let mut eng = owner_engine();
    eng.routing.update(&s("10.1.1.5"), local(1), None, 0);
    let mut seen = ReliableSeen::new();
    let body = [0, 0, 1, 2, 9, 77];
    assert_eq!(
        plan_reliable(&eng, &mut seen, &body[..4], true, local(1), 0),
        ReliablePlan::Ignore
    );
    assert_eq!(
        plan_reliable(&eng, &mut seen, &body, false, local(1), 0),
        ReliablePlan::UnknownInner
    );
    assert_eq!(
        plan_reliable(&eng, &mut seen, &body, true, local(1), 0),
        ReliablePlan::Deliver { seq: 258, warn: false }
    );
    assert_eq!(
        plan_reliable(&eng, &mut seen, &body, true, local(1), 1),
        ReliablePlan::Acknowledge { seq: 258, warn: false }
    );
}

#[test]
fn crypto_pool_has_any_includes_per_peer_bindings() {
    let mut pool = CryptoPool::new();
    assert!(!pool.has_any());
    let addr = ep(v4(10, 0, 0, 1), 1234);
    let ak = pool.add_key(key(1));
    pool.bind_peer_key(addr, ak);
    assert!(pool.has_any());
}

#[test]
fn crypto_pool_shared_signing_key_falls_back_to_any_per_peer() {
    let mut pool = CryptoPool::new();
    let addr = ep(v4(10, 0, 0, 2), 2222);
    let ak = pool.add_key(key(1));
    pool.bind_peer_key(addr, ak);
    assert!(pool.shared_signing_key().is_some());
}

#[test]
fn extras_capped_evicts_oldest_first() {
    let mut pool = CryptoPool::new();
    let _ = pool.set_primary(key(100));
    for i in 0..12 {
        let _ = pool.add_key(key(i));
    }
    assert_eq!(pool.extras_len(), MAX_EXTRA_KEYS);
    assert!(pool.primary().is_some());
    assert_eq!(pool.extras[0].key.bytes[0], 4);
    assert_eq!(pool.extras[7].key.bytes[0], 11);
}

#[test]
fn crypto_pool_shared_signing_key_falls_back_to_primary() {
    let mut pool = CryptoPool::new();
    pool.set_primary(key(1));
    let addr = ep(v4(10, 0, 0, 99), 9);
    assert!(pool.shared_signing_key().is_some());
    assert!(pool.key_for_dest(addr).is_some());
}

#[test]
fn crypto_pool_prune_per_peer_drops_orphans() {
    let mut pool = CryptoPool::new();
    let _ = pool.set_primary(key(1));
    let addr = ep(v4(198, 51, 100, 10), 6000);
    let k = pool.add_key(key(2));
    pool.bind_peer_key(addr, k);
    let rt = RoutingTable::new();
    pool.prune_per_peer_orphans(&rt, None);
    assert!(pool.key_for_peer(addr).is_none());

    let mut rt = RoutingTable::new();
    rt.update(&s("10.0.0.2"), addr, None, 0);
    let k2 = pool.add_key(key(3));
    pool.bind_peer_key(addr, k2);
    pool.prune_per_peer_orphans(&rt, None);
    assert!(pool.key_for_peer(addr).is_some());
}

#[test]
fn crypto_pool_prune_retains_owner_ep_hint() {
    let mut pool = CryptoPool::new();
    let _ = pool.set_primary(key(1));
    let owner_ep = ep(v4(198, 51, 100, 11), 6001);
    let k = pool.add_key(key(2));
    pool.bind_peer_key(owner_ep, k);
    let rt = RoutingTable::new();
    pool.prune_per_peer_orphans(&rt, Some(owner_ep));
    assert!(pool.key_for_peer(owner_ep).is_some());
}

#[test]
fn packets_are_opened_with_the_peers_key_first() {
    let mut pool = CryptoPool::new();
    let _ = pool.set_primary(key(1));
    let k = pool.add_key(key(2));
    pool.bind_peer_key(local(5), k);
    let keys = pool.keys_for_decrypt(local(5));
    assert_eq!(keys[0].key.bytes[0], 2);
    assert!(keys.iter().any(|k| k.key.bytes[0] == 1));
    pool.unbind_peer(local(5));
    assert!(pool.key_for_peer(local(5)).is_none());
    pool.clear();
    assert!(!pool.has_any());
}

#[test]
fn unique_ip_peer_vip_single_and_multi() {
    let mut rt = RoutingTable::new();
    let a = ep(v4(203, 0, 113, 1), 1000);
    let b = ep(v4(203, 0, 113, 2), 2000);
    let shared_a = ep(v4(203, 0, 113, 9), 1000);
    let shared_b = ep(v4(203, 0, 113, 9), 2000);
    rt.update(&s("10.1.1.5"), a, Some(&s("p5")), 0);
    rt.update(&s("10.1.1.6"), b, Some(&s("p6")), 0);
    assert_eq!(
        unique_ip_peer_vip(&rt, &s("10.1.1.2"), &s("10.1.1.1"), a.ip),
        UniqueIpMatch::Bound("10.1.1.5".to_string())
    );
    rt.update(&s("10.1.1.7"), shared_a, Some(&s("p7")), 0);
    rt.update(&s("10.1.1.8"), shared_b, Some(&s("p8")), 0);
    assert_eq!(
        unique_ip_peer_vip(&rt, &s("10.1.1.2"), &s("10.1.1.1"), shared_a.ip),
        UniqueIpMatch::Unbound
    );
}

#[test]
fn peer_route_needs_work_active_wrong_endpoint() {
    let mut rt = RoutingTable::new();
    let old = ep(v4(203, 0, 113, 7), 1111);
    let new_ep = ep(v4(203, 0, 113, 7), 2222);
    rt.update(&s("10.1.1.5"), old, Some(&s("p")), 0);
    set_state(&mut rt, "10.1.1.5", RouteState::Active);
    assert!(peer_route_needs_work(&rt, &s("10.1.1.5"), new_ep));
    assert!(!peer_route_needs_work(&rt, &s("10.1.1.5"), old));
    assert!(!peer_announce_needs_work_unbound(&rt, old));
    assert!(peer_announce_needs_work_unbound(&rt, new_ep));
}

#[test]
fn reconnect_fastpath_owner_candidate_same_ip_new_port() {
    let current = ep(v4(10, 0, 0, 1), 4000);
    let new_ep = ep(v4(10, 0, 0, 1), 5000);
    let got = reconnect_fastpath_owner_candidate(current, None, &vec![new_ep]);
    assert_eq!(got, Some(new_ep));
}

#[test]
fn reconnect_fastpath_owner_candidate_skips_unchanged() {
    let current = ep(v4(10, 0, 0, 1), 4000);
    assert_eq!(reconnect_fastpath_owner_candidate(current, None, &vec![current]), None);
}

#[test]
fn reconnect_fastpath_owner_candidate_hint_ip() {
    let current = ep(v4(10, 0, 0, 1), 4000);
    let hint = ep(v4(203, 0, 113, 5), 1);
    let new_ep = ep(v4(203, 0, 113, 5), 9000);
    let got = reconnect_fastpath_owner_candidate(current, Some(hint), &vec![new_ep]);
    assert_eq!(got, Some(new_ep));
}

fn jack(owner_vip: &str) -> JackBody {
    JackBody {
        proto_ver: None,
        vip: s("10.0.0.5"),
        owner_node_id: s("owner1"),
        prefix: Some(24),
        owner_vip: Some(s(owner_vip)),
    }
}

#[test]
fn jack_mpja_rejects_owner_vip_equals_peer_vip() {
    let from = ep(v4(198, 51, 100, 10), 5000);
    assert!(!jack_mpja_body_valid(&jack("10.0.0.5"), from));
}

#[test]
fn jack_mpja_accepts_valid_owner_and_peer_vip() {
    let from = ep(v4(198, 51, 100, 10), 5000);
    assert!(jack_mpja_body_valid(&jack("10.0.0.1"), from));
    assert!(!jack_mpja_body_valid(&jack("10.0.1.1"), from));
    assert!(!jack_mpja_body_valid(&jack("10.0.0.1"), ep(0, 5000)));
}

#[test]
fn coverage_keepalive_suppresses_after_note_and_clears_on_reset() {
    let mut eng = peer_engine();
    let to = local(45000);
    eng.routing.update(&s("10.1.1.5"), to, Some(&s("peer-a")), 0);
    set_state(&mut eng.routing, "10.1.1.5", RouteState::Active);
    let mut clock = OutboundUdpClock::new();
    let targets = plan_keepalives(&eng, &mut clock);
    assert_eq!(targets.len(), 1);
    assert_eq!(targets[0].to, to);
    assert!(!targets[0].hol);
    assert!(clock.needs_refresh(to, 1_000, 5_000));
    clock.note(to, 1_000);
    assert_eq!(plan_keepalives(&eng, &mut clock).len(), 1);
    assert!(!clock.needs_refresh(to, 1_000, 5_000));
    clock.clear();
    assert!(clock.last(to).is_none());
}

#[test]
fn keepalives_reach_an_owner_without_a_route() {
    let mut eng = peer_engine();
    let owner = local(7);
    eng.id.set_owner_endpoint(owner);
    eng.routing.update(&s("10.1.1.5"), local(5), None, 0);
    eng.routing.update(&s("10.1.1.6"), local(6), None, 0);
    set_state(&mut eng.routing, "10.1.1.6", RouteState::Stale);
    let mut clock = OutboundUdpClock::new();
    clock.note(local(5), 10);
    clock.note(local(6), 10);
    let targets = plan_keepalives(&eng, &mut clock);
    assert_eq!(targets.len(), 2);
    assert_eq!(targets[1].to, owner);
    assert!(targets[1].hol);
    assert!(clock.last(local(5)).is_some());
    assert!(clock.last(local(6)).is_none());
}

#[test]
fn allocate_ping_id_unique_with_many_pending_user_pings() {
    let mut pings = PendingPings::new();
    let dest = local(9);
    let mut ids: Vec<u64> = Vec::new();
    for _ in 0..32 {
        let id = pings.allocate_ping_id();
        assert!(!ids.contains(&id), "duplicate ping id {id}");
        ids.push(id);
        pings.insert(
            id,
            PendingPing {
                dest,
                allow_ip_match: true,
                deadline: 5_000,
                sent_at_ms: 0,
                kind: PendingPingKind::User,
            },
        );
    }
}

#[test]
fn pongs_count_only_from_who_was_pinged() {
    let mut pings = PendingPings::new();
    let id = pings.allocate_ping_id();
    let ping = |allow| PendingPing {
        dest: local(9),
        allow_ip_match: allow,
        deadline: 5_000,
        sent_at_ms: 0,
        kind: PendingPingKind::Probe,
    };
    pings.insert(id, ping(false));
    assert!(pings.take_answered(id, local(10)).is_none());
    assert!(pings.take_answered(id, local(9)).is_some());
    assert!(pings.take_answered(id, local(9)).is_none());
    pings.insert(id, ping(true));
    assert!(pings.take_answered(id, local(10)).is_some());
    pings.insert(id, ping(true));
    assert!(pings.take_expired(4_999).is_none());
    assert_eq!(pings.take_expired(5_000).unwrap().0, id);
}

#[test]
fn heals_start_once() {
    let mut eng = peer_engine();
    eng.feature_flags.predictive_heal = true;
    let vip = s("10.1.1.5");
    assert_eq!(eng.begin_heal(&vip, 0, 3, 0), None);
    eng.routing.update(&vip, local(5), None, 0);
    assert_eq!(eng.begin_heal(&vip, 3, 3, 0), None);
    assert_eq!(eng.begin_heal(&vip, 0, 3, 0), Some(local(5)));
    assert_eq!(eng.begin_heal(&vip, 0, 3, 0), None);
    eng.heal_failed(&vip, 0, 500);
    assert_eq!(eng.begin_heal(&vip, 0, 3, 499), None);
    assert_eq!(eng.begin_heal(&vip, 0, 3, 500), Some(local(5)));
}

#[test]
fn rotation_gives_everyone_a_turn() {
    let eps: Vec<Endpoint> = (0..5).map(local).collect();
    let (first, c) = rotate_batch(&eps, 0, 2);
    let (second, c) = rotate_batch(&eps, c, 2);
    let (third, c) = rotate_batch(&eps, c, 2);
    assert_eq!(first, vec![local(0), local(1)]);
    assert_eq!(second, vec![local(2), local(3)]);
    assert_eq!(third, vec![local(4), local(0)]);
    assert_eq!(c, 1);
}

#[test]
fn membership_events_count_once() {
    let mut seen = MsmdSeen::new();
    assert!(seen.mark(&s("e1"), 0));
    assert!(!seen.mark(&s("e1"), 119_999));
    assert!(seen.mark(&s("e2"), 119_999));
    assert!(!seen.mark(&s("e1"), 240_000));
    assert!(seen.mark(&s("e3"), 240_000));
    assert!(seen.mark(&s("e1"), 240_000));
}

#[test]
fn reconnects_are_bounded() {
    let mut p = PunchState::new();
    p.start_punch_workflow_key(s("mine"));
    assert!(!p.begin_peer_reconnect(&s("10.1.1.0"), 0, 0));
    for i in 0..4 {
        assert!(p.begin_peer_reconnect(&format!("10.1.1.{i}"), 1, 0));
    }
    assert!(p.running.contains(&s("peer-reconnect:10.1.1.3")));
    assert_eq!(p.distinct_peer_reconnect_key_count(), 4);
    assert!(!p.begin_peer_reconnect(&s("10.1.1.9"), 1, 0));
    p.stop_peer_reconnect_for_vip(&s("10.1.1.0"));
    assert_eq!(p.distinct_peer_reconnect_key_count(), 3);
    assert!(!p.begin_peer_reconnect(&s("10.1.1.0"), 1, 29_999));
    assert!(p.begin_peer_reconnect(&s("10.1.1.0"), 1, 30_000));
    p.stop_all_peer_reconnect_workflows();
    assert_eq!(p.running.len(), 1);
    assert!(p.running.contains(&s("mine")));
    assert!(p.began.is_empty());
    let mut fast = FastpathState { last_ep: None, last_at: None };
    assert!(fast.try_candidate(local(1), 0));
    assert!(!fast.try_candidate(local(1), 29_999));
    assert!(fast.try_candidate(local(2), 30_000));
}

#[test]
fn reconnect_plans_name_the_peers() {
    let mut rt = RoutingTable::new();
    let old = ep(v4(203, 0, 113, 7), 1111);
    let new_ep = ep(v4(203, 0, 113, 7), 2222);
    let unknown = ep(v4(203, 0, 113, 8), 1);
    rt.update(&s("10.1.1.5"), old, Some(&s("p")), 0);
    let owner = ep(v4(9, 9, 9, 9), 9);
    let (bound, unbound) = plan_peer_reconnect(
        &rt,
        &s("10.1.1.2"),
        &s("10.1.1.1"),
        Some(owner),
        &vec![new_ep, unknown, owner],
    );
    assert_eq!(bound, vec![(s("10.1.1.5"), new_ep)]);
    assert_eq!(unbound, vec![unknown]);
    let many: Vec<Endpoint> = (0..20).map(local).collect();
    assert_eq!(announced_within_budget(&many, None).len(), 8);
    let mut active = RoutingTable::new();
    active.update(&s("10.1.1.5"), old, None, 0);
    set_state(&mut active, "10.1.1.5", RouteState::Active);
    assert_eq!(filter_decentralized_punch_targets(&active, &vec![old, unknown]), vec![unknown]);
}

#[test]
fn packets_of_the_adapter_find_their_way() {
    let mut eng = peer_engine();
    let me = v4(10, 1, 1, 2);
    let there = v4(10, 1, 1, 5);
    assert!(matches!(eng.plan_tun_packet(&[0; 19]), TunPlan::Ignore));
    assert!(matches!(eng.plan_tun_packet(&ipv4_packet(me, me)), TunPlan::Inject));
    assert!(matches!(eng.plan_tun_packet(&ipv4_packet(me, there)), TunPlan::NoRoute));
    eng.id.set_owner_endpoint(local(7));
    assert!(
        matches!(eng.plan_tun_packet(&ipv4_packet(me, there)), TunPlan::ToOwner(e) if e == local(7))
    );
    let group = ipv4_packet(me, v4(224, 0, 0, 1));
    assert!(is_broadcast_or_multicast(&group));
    assert!(matches!(eng.plan_tun_packet(&group), TunPlan::Group));
    eng.routing.update(&s("10.1.1.5"), local(5), None, 0);
    match eng.plan_tun_packet(&ipv4_packet(me, there)) {
        TunPlan::Routed { dst, vip, ep, .. } => {
            assert_eq!(dst, there);
            assert_eq!(vip, "10.1.1.5");
            assert_eq!(ep, local(5));
        }
        _ => panic!("no route"),
    }
}

#[test]
fn relays_are_taken_where_wanted() {
    let mut eng = peer_engine();
    let paths = |want_relay, relay| TunPaths {
        multipath_active: None,
        transition_active: None,
        want_relay,
        relay,
    };
    let send = eng
        .plan_tun_send(5, local(5), RouteState::Active, &paths(false, RelaySelection::NoHop))
        .unwrap();
    assert_eq!(send.target, local(5));
    assert_eq!(send.kind, PathKind::Direct);
    let send = eng
        .plan_tun_send(5, local(5), RouteState::Stale, &paths(true, RelaySelection::Hop(local(7))))
        .unwrap();
    assert_eq!(send.target, local(7));
    assert_eq!(send.kind, PathKind::OwnerRelay);
    assert!(eng
        .plan_tun_send(5, local(5), RouteState::Stale, &paths(true, RelaySelection::NoHop))
        .is_none());
}

#[test]
fn data_of_peers_is_delivered_or_passed_on() {
    let mut eng = owner_engine();
    let me = v4(10, 1, 1, 1);
    eng.routing.update(&s("10.1.1.5"), local(5), None, 0);
    assert!(matches!(eng.plan_mdat(&[0; 19], local(5)), MdatPlan::Ignore));
    assert!(matches!(
        eng.plan_mdat(&ipv4_packet(v4(10, 1, 1, 5), me), local(5)),
        MdatPlan::Deliver { dst } if dst == me
    ));
    assert!(matches!(
        eng.plan_mdat(&ipv4_packet(me, v4(10, 1, 1, 5)), local(6)),
        MdatPlan::Forward(e) if e == local(5)
    ));
    assert!(matches!(
        eng.plan_mdat(&ipv4_packet(me, v4(10, 1, 1, 5)), local(5)),
        MdatPlan::Bounce
    ));
    assert!(matches!(
        eng.plan_mdat(&ipv4_packet(me, v4(10, 1, 1, 9)), local(5)),
        MdatPlan::UnknownToOwner
    ));
    eng.routing.update(&s("10.1.1.6"), local(6), None, 0);
    let group = eng.plan_group_forward(local(5), &NameSet::new());
    assert_eq!(group.direct, vec![local(6)]);
    assert!(group.relay.is_empty());
    let mut peer = peer_engine();
    assert!(matches!(
        peer.plan_mdat(&ipv4_packet(me, v4(10, 1, 1, 9)), local(5)),
        MdatPlan::Untrusted
    ));
    peer.routing.update(&s("10.1.1.5"), local(5), None, 0);
    assert!(matches!(
        peer.plan_mdat(&ipv4_packet(me, v4(10, 1, 1, 9)), local(5)),
        MdatPlan::UnknownToPeer
    ));
}

#[test]
fn sealed_packets_need_both_ends() {
    let mut eng = peer_engine();
    assert_eq!(eng.plan_seal(local(5)), SealPlan::Plain);
    assert!(matches!(
        eng.plan_compact(CompactKind::Data, &[1], local(5), 20, true),
        CompactPlan::PlainLimited { .. }
    ));
    eng.crypto_keys.set_primary(key(1));
    assert_eq!(
        eng.plan_compact(CompactKind::Data, &[1], local(5), 20, true),
        CompactPlan::PlainRefused
    );
    assert_eq!(eng.plan_seal(local(5)), SealPlan::MissingDestination);
    let sealed = [0u8; 40];
    assert_eq!(
        eng.plan_compact(CompactKind::Encrypted, &sealed, local(5), 20, true),
        CompactPlan::CryptoGate
    );
    eng.routing.update(&s("10.1.1.5"), local(5), None, 0);
    assert_eq!(
        eng.plan_seal(local(5)),
        SealPlan::Seal { sender: v4(10, 1, 1, 2), receiver: v4(10, 1, 1, 5) }
    );
    assert_eq!(
        eng.plan_compact(CompactKind::Encrypted, &sealed, local(5), 20, true),
        CompactPlan::Open { peer: v4(10, 1, 1, 5), me: v4(10, 1, 1, 2) }
    );
    assert_eq!(
        eng.plan_compact(CompactKind::Encrypted, &sealed, local(5), 20, false),
        CompactPlan::Replayed
    );
    assert_eq!(
        eng.plan_compact(CompactKind::Ack, &[0, 0, 0, 9], local(5), 20, true),
        CompactPlan::Ack { seq: 9 }
    );
    assert_eq!(data_aad(1, 2), [0, 0, 0, 1, 0, 0, 0, 2]);
}

#[test]
fn control_packets_are_signed_where_they_must() {
    let mut eng = peer_engine();
    eng.crypto_keys.set_primary(key(1));
    assert!(matches!(
        eng.plan_control_send(local(5), ControlTag::Sync, &[], 4),
        ControlSeal::Signed(_)
    ));
    assert!(matches!(
        eng.plan_control_send(local(5), ControlTag::Hpch, &[], 4),
        ControlSeal::Clear
    ));
    assert!(matches!(
        eng.plan_control_send(local(5), ControlTag::Mctl, &[4, 0], 4),
        ControlSeal::Signed(_)
    ));
    assert!(matches!(
        eng.plan_control_send(local(5), ControlTag::Mctl, &[3, 0], 4),
        ControlSeal::Clear
    ));
}

#[test]
fn control_packets_pass_the_gates() {
    let mut eng = peer_engine();
    let from = local(5);
    assert_eq!(
        eng.dispatch_control(ControlTag::Sync, 10, from, false, false),
        ControlStep::Limited
    );
    assert_eq!(
        eng.dispatch_control(ControlTag::Sync, 10, from, false, true),
        ControlStep::Msyn
    );
    eng.crypto_keys.set_primary(key(1));
    assert_eq!(
        eng.dispatch_control(ControlTag::Sync, 10, from, false, true),
        ControlStep::CryptoGate
    );
    assert_eq!(
        eng.dispatch_control(ControlTag::Sync, 10, from, true, false),
        ControlStep::Msyn
    );
    assert_eq!(
        eng.dispatch_control(ControlTag::Jack, 8193, from, true, true),
        ControlStep::Ignore
    );
    assert_eq!(
        eng.dispatch_control(ControlTag::Kick, 0, from, true, true),
        ControlStep::Ignore
    );
    eng.id.set_owner_endpoint(from);
    assert_eq!(
        eng.dispatch_control(ControlTag::Kick, 0, from, true, true),
        ControlStep::Kicked
    );
    let owner = owner_engine();
    assert_eq!(
        owner.dispatch_control(ControlTag::Join, 10, from, false, true),
        ControlStep::Join
    );
    assert_eq!(
        owner.dispatch_control(ControlTag::Join, 8193, from, false, true),
        ControlStep::Join
    );
    assert_eq!(
        eng.dispatch_control(ControlTag::Join, 10, from, true, true),
        ControlStep::Ignore
    );
}

#[test]
fn joins_count_before_they_are_read() {
    assert!(join_admitted(true, 8192));
    assert!(!join_admitted(true, 8193));
    assert!(!join_admitted(false, 10));
    assert!(is_metered(ControlTag::Join, false));
    assert!(!is_metered(ControlTag::Join, true));
    assert!(!is_metered(ControlTag::Hpch, false));
}

#[test]
fn joins_are_planned() {
    let mut eng = owner_engine();
    let req = |v, id: &str| JoinRequest { proto_ver: v, node_id: s(id) };
    assert_eq!(eng.plan_join(&req(Some(3), "a"), 4), JoinPlan::VersionMismatch { got: 3 });
    assert_eq!(eng.plan_join(&req(Some(4), ""), 4), JoinPlan::BadNode);
    assert_eq!(eng.plan_join(&req(Some(4), &"x".repeat(65)), 4), JoinPlan::BadNode);
    assert_eq!(
        eng.plan_join(&req(Some(4), "a"), 4),
        JoinPlan::Assign { already_known: false }
    );
    assert_eq!(eng.allocate_owner_vip_fallback(&s("a")), Some(s("10.1.1.2")));
    eng.routing.update(&s("10.1.1.2"), local(5), Some(&s("a")), 0);
    assert_eq!(eng.allocate_owner_vip_fallback(&s("a")), Some(s("10.1.1.2")));
    assert_eq!(eng.allocate_owner_vip_fallback(&s("b")), Some(s("10.1.1.3")));
    assert_eq!(eng.lookup_ep_by_node(&s("a")), Some(local(5)));
}

#[test]
fn answers_to_a_join_are_taken_in() {
    let mut eng = EngineState::new(false, 0, s("n"), 24);
    let from = ep(v4(198, 51, 100, 10), 5000);
    let mut body = jack("10.0.0.1");
    body.proto_ver = Some(3);
    assert!(matches!(
        eng.handle_jack(&body, from, 4, true, true, 0),
        JackOutcome::VersionMismatch | JackOutcome::Ignored
    ));
    let mut eng = EngineState::new(false, 0, s("n"), 24);
    eng.join_waiting = true;
    body.proto_ver = Some(4);
    match eng.handle_jack(&body, from, 4, true, true, 0) {
        JackOutcome::Joined { ack, .. } => {
            assert_eq!(ack.vip, "10.0.0.5");
            assert_eq!(ack.subnet_prefix, 24);
            assert_eq!(ack.owner_endpoint, from);
        }
        _ => panic!("not joined"),
    }
    assert_eq!(eng.id.my_vip, "10.0.0.5");
    assert_eq!(eng.owner_send_endpoint(), Some(from));
}

#[test]
fn members_that_leave_lose_their_route() {
    let mut eng = peer_engine();
    let ev = |kind, node: &str| MsmdEvent {
        kind,
        vip: s("10.1.1.5"),
        node_id: s(node),
        ep: Some(ep(v4(198, 51, 100, 5), 5)),
    };
    assert!(matches!(eng.apply_msmd(&ev(MsmdKind::Join, "a"), 0), MsmdOutcome::Joined { moved_from: None }));
    assert!(eng.routing.lookup(&s("10.1.1.5")).is_some());
    assert!(matches!(eng.apply_msmd(&ev(MsmdKind::Unknown, "a"), 0), MsmdOutcome::Nothing));
    let _ = eng.apply_msmd(&ev(MsmdKind::Leave, "b"), 0);
    assert!(eng.routing.lookup(&s("10.1.1.5")).is_some());
    assert!(matches!(
        eng.apply_msmd(&ev(MsmdKind::Leave, "a"), 0),
        MsmdOutcome::Left(Some(_))
    ));
    assert!(eng.routing.lookup(&s("10.1.1.5")).is_none());
}

#[test]
fn messages_for_others_go_on_with_less_to_live() {
    let mut eng = owner_engine();
    eng.routing.update(&s("10.1.1.5"), local(5), Some(&s("a")), 0);
    eng.routing.update(&s("10.1.1.6"), local(6), Some(&s("b")), 0);
    let msg = |dst: &str, src: &str, ttl| PrxyMsg {
        ttl,
        dst_node: s(dst),
        src_node: s(src),
        candidates: true,
    };
    assert_eq!(
        eng.plan_prxy(&msg("b", "a", 3), local(5)),
        PrxyPlan::Forward { ep: local(6), ttl: 2 }
    );
    assert_eq!(eng.plan_prxy(&msg("b", "a", 0), local(5)), PrxyPlan::Ignore);
}

#[test]
fn syncs_bring_routes_and_take_phantoms_away() {
    let mut eng = peer_engine();
    let owner = ep(v4(198, 51, 100, 1), 1);
    eng.routing.update(&s("10.1.1.9"), ep(v4(198, 51, 100, 9), 9), Some(&s("old")), 0);
    let route = |vip: &str, last: u8| MsynRoute {
        vip: Some(s(vip)),
        ep: Some(ep(v4(198, 51, 100, last), 7)),
        node_id: Some(format!("n{last}")),
    };
    let routes = vec![route("10.1.1.5", 5), route("10.1.1.1", 1), route("10.7.1.5", 6)];
    match eng.apply_msyn_epoch(owner, 0, 4, &vec![], &routes, 10) {
        MsynApply::Applied(fx) => {
            assert_eq!(fx.applied.len(), 2);
            assert_eq!(fx.phantoms.len(), 1);
            assert_eq!(fx.phantoms[0].gone.vip, "10.1.1.9");
        }
        _ => panic!("not applied"),
    }
    assert!(eng.routing.lookup(&s("10.1.1.9")).is_none());
    assert!(eng.routing.lookup(&s("10.1.1.5")).is_some());
    match eng.apply_msyn_epoch(owner, 4, 5, &vec![s("10.1.1.5")], &vec![], 10) {
        MsynApply::Applied(fx) => assert_eq!(fx.removed.len(), 1),
        _ => panic!("not applied"),
    }
    assert!(eng.routing.lookup(&s("10.1.1.5")).is_none());
    assert!(eng.routing.lookup(&s("10.1.1.1")).is_some());
    assert!(matches!(
        eng.apply_msyn_epoch(owner, 0, 3, &vec![], &routes, 10),
        MsynApply::Outdated
    ));
    let many: Vec<String> = (0..1025).map(|i| format!("{i}")).collect();
    assert!(matches!(
        eng.apply_msyn_epoch(owner, 5, 6, &many, &vec![], 10),
        MsynApply::TooLarge
    ));
}

#[test]
fn a_moved_peer_is_served_anew_and_loses_its_key() {
    let mut eng = owner_engine();
    let vip = s("10.1.1.5");
    assert_eq!(eng.update_route(&vip, local(5), None, 0), None);
    let k = eng.crypto_keys.add_key(key(3));
    eng.crypto_keys.bind_peer_key(local(5), k);
    eng.sync.peer_sync_state.insert(vip.clone(), 9);
    assert_eq!(eng.update_route(&vip, local(6), None, 0), Some(local(5)));
    assert!(eng.crypto_keys.key_for_peer(local(5)).is_none());
    assert_eq!(eng.sync.served_rev(&vip), 0);
    let out = eng.evict_peer(&vip);
    assert_eq!(out.ep, Some(local(6)));
    assert_eq!(out.gone.vip_u32, Some(v4(10, 1, 1, 5)));
    assert!(eng.routing.table.is_empty());
}

#[test]
fn stale_peers_that_are_heard_revive() {
    let mut eng = owner_engine();
    let vip = s("10.1.1.5");
    eng.update_route(&vip, local(5), None, 0);
    set_state(&mut eng.routing, "10.1.1.5", RouteState::Stale);
    assert_eq!(eng.stale_victims(10_001, 10_000), vec![vip.clone()]);
    assert!(eng.stale_victims(10_000, 10_000).is_empty());
    assert_eq!(eng.retry_targets(), vec![local(5)]);
    assert!(eng.touch_routing_endpoint(local(5), 9_000));
    assert!(!eng.touch_routing_endpoint(local(5), 9_500));
    assert!(eng.stale_victims(10_001, 10_000).is_empty());
    assert_eq!(eng.routing.table.get(&vip).unwrap().last_seen, 9_500);
    assert!(!eng.touch_routing_endpoint(local(6), 9_900));
    assert_eq!(eng.routing.table.get(&vip).unwrap().last_seen, 9_500);
}

#[test]
fn data_tells_that_its_sender_is_there() {
    let mut eng = owner_engine();
    let vip = s("10.1.1.5");
    eng.update_route(&vip, local(5), None, 100);
    set_state(&mut eng.routing, "10.1.1.5", RouteState::Stale);
    let packet = ipv4_packet(v4(10, 1, 1, 5), eng.id.my_vip_u32);
    assert!(matches!(eng.handle_mdat_like(&packet[..19], local(5), 300), MdatPlan::Ignore));
    assert_eq!(eng.routing.table.get(&vip).unwrap().last_seen, 100);
    let plan = eng.handle_mdat_like(&packet, local(5), 300);
    assert!(matches!(plan, MdatPlan::Deliver { .. }));
    assert_eq!(eng.routing.table.get(&vip).unwrap().last_seen, 300);
    assert!(eng.routing.table.get(&vip).unwrap().state == RouteState::Candidate);
}

#[test]
fn silent_routes_become_stale() {
    let mut eng = owner_engine();
    let vip = s("10.1.1.5");
    eng.update_route(&vip, local(5), None, 100);
    eng.update_route(&s("10.1.1.6"), local(6), None, 400);
    eng.routing.mark_stale_if_idle(600, 500);
    assert!(eng.routing.table.get(&vip).unwrap().state != RouteState::Stale);
    eng.routing.mark_stale_if_idle(601, 500);
    assert!(eng.routing.table.get(&vip).unwrap().state == RouteState::Stale);
    assert!(eng.routing.table.get(&s("10.1.1.6")).unwrap().state != RouteState::Stale);
    assert_eq!(eng.routing.table.get(&vip).unwrap().last_seen, 100);
    eng.touch_routing_endpoint(local(5), 700);
    assert!(eng.evict_stale_routes(1_300, 500, 600).is_empty());
    assert!(eng.routing.table.get(&vip).unwrap().state == RouteState::Stale);
    let gone = eng.evict_stale_routes(1_301, 500, 600);
    assert_eq!(gone.len(), 1);
    assert_eq!(gone[0].gone.vip, vip);
}

#[test]
fn commands_change_the_engine() {
    let mut eng = Engine::new(peer_engine(), MtuPolicy::new(576, 1400), 32);
    assert!(matches!(eng.handle_cmd(EngineCmd::Shutdown, 0), CmdPlan::Stop));
    assert!(matches!(
        eng.handle_cmd(EngineCmd::SetCryptoKey(key(4)), 0),
        CmdPlan::KeyInUse { .. }
    ));
    assert!(eng.state.has_crypto());
    let _ = eng.handle_cmd(EngineCmd::SetOwnerEndpoint(local(7)), 0);
    assert!(matches!(
        eng.handle_cmd(EngineCmd::QueryOwnerSendEndpoint, 0),
        CmdPlan::OwnerEndpoint(Some(e)) if e == local(7)
    ));
    eng.state.routing.update(&s("10.1.1.5"), local(5), None, 0);
    assert!(matches!(
        eng.handle_cmd(EngineCmd::PingAll, 0),
        CmdPlan::Ping(v) if v == vec![local(5)]
    ));
    let moved = eng.handle_cmd(
        EngineCmd::SetIdentity {
            is_owner: false,
            my_vip: s("10.9.1.2"),
            my_node_id: s("n"),
            subnet_prefix: 24,
        },
        0,
    );
    match moved {
        CmdPlan::Drained(gone) => assert_eq!(gone.len(), 1),
        _ => panic!("not drained"),
    }
    assert!(eng.state.routing.table.is_empty());
    assert!(matches!(eng.handle_cmd(EngineCmd::ResetSession, 0), CmdPlan::Reset));
    assert!(!eng.state.has_crypto());
}

#[test]
fn joins_in_quick_succession_are_held_back() {
    let mut eng = Engine::new(peer_engine(), MtuPolicy::new(576, 1400), 32);
    let join = |b| EngineCmd::PrepareJoin { key: key(b), owner: local(7) };
    assert!(matches!(eng.handle_cmd(join(1), 1_000), CmdPlan::Join { .. }));
    assert!(matches!(eng.handle_cmd(join(1), 1_199), CmdPlan::JoinThrottled));
    assert!(matches!(eng.handle_cmd(join(1), 1_400), CmdPlan::Join { .. }));
    assert!(matches!(
        eng.handle_cmd(EngineCmd::TakePendingJoinAck, 0),
        CmdPlan::JoinAck(None)
    ));
}

#[test]
fn adapter_sizes_change_rarely() {
    let mut p = MtuPolicy::new(576, 1400);
    assert!(p.try_apply_adapter_mtu(1_400, 0).is_none());
    let c = p.set_adapter_name(s("mint0"), 1_400, 0).unwrap();
    assert_eq!(c.adapter, "mint0");
    assert_eq!(c.mtu, 1_400);
    assert!(p.try_apply_adapter_mtu(1_400, 1).is_none());
    assert!(p.try_apply_adapter_mtu(1_390, 1).is_none());
    assert_eq!(p.try_apply_adapter_mtu(1_368, 1).unwrap().mtu, 1_368);
    assert_eq!(p.try_apply_adapter_mtu(1_367, 30_001).unwrap().mtu, 1_367);
    assert!(p.try_apply_adapter_mtu(1_501, 90_000).is_none());
    assert_eq!(p.set_mtu_pin(true, 100, 90_000).unwrap().mtu, 576);
    assert!(p.set_adapter_name(s("a;b"), 1_400, 0).is_none());
    assert!(is_safe_interface_alias("mint0"));
    assert!(!is_safe_interface_alias("a;b"));
}

#[test]
fn counters_never_repeat() {
    let mut c = 0u64;
    let a = next_ctrl_send_counter(&mut c).unwrap();
    let b = next_ctrl_send_counter(&mut c).unwrap();
    assert!(a < b);
    let mut full = COUNTER_LIMIT;
    assert!(next_ctrl_send_counter(&mut full).is_none());
    let mut ctrs: Table<u32, u64> = Table::new();
    let a = next_data_send_counter(&mut ctrs, 5).unwrap();
    let other = next_data_send_counter(&mut ctrs, 6).unwrap();
    let b = next_data_send_counter(&mut ctrs, 5).unwrap();
    assert!(a < b);
    assert_eq!(a, other);
}

#[test]
fn addresses_of_a_subnet_are_told() {
    assert!(same_subnet(v4(10, 1, 1, 2), v4(10, 1, 1, 200), 24));
    assert!(!same_subnet(v4(10, 1, 1, 2), v4(10, 1, 2, 2), 24));
    assert_eq!(owner_vip_with_prefix("10.1.1.77", 24), "10.1.1.1");
    assert!(is_valid_sync_vip("10.1.1.2", "10.1.1.3", 24));
    assert!(!is_valid_sync_vip("10.1.1.2", "10.1.2.3", 24));
    assert!(!is_valid_sync_endpoint(ep(0, 5)));
    assert!(!is_valid_sync_endpoint(ep(v4(224, 0, 0, 1), 5)));
    assert!(is_valid_sync_endpoint(ep(v4(198, 51, 100, 1), 5)));
}

#[test]
fn small_wire_facts() {
    let mut stun = [0u8; 20];
    stun[4..8].copy_from_slice(&0x2112_A442u32.to_be_bytes());
    assert!(looks_like_stun(&stun));
    stun[0] = 0x80;
    assert!(!looks_like_stun(&stun));
    assert!(!looks_like_stun(&stun[..19]));
    assert!(is_recent_para_ts(1_000, 1_000));
    assert!(!is_udp_message_too_long(None));
    assert!(is_udp_message_too_long(Some(90)));
}

#[test]
fn two_equal_answers_decide() {
    let mut q = StunQuery::new(100);
    assert_eq!(q.offer(&vec![1], Some(s("1.2.3.4:5"))), StunOffer::Kept);
    q.asked = true;
    assert_eq!(q.offer(&vec![1], None), StunOffer::Foreign);
    assert_eq!(q.offer(&vec![1], Some(s("1.2.3.4:5"))), StunOffer::Counted);
    assert_eq!(q.offer(&vec![1], Some(s("1.2.3.4:6"))), StunOffer::Counted);
    assert_eq!(q.offer(&vec![1], Some(s("1.2.3.4:5"))), StunOffer::Decided);
    assert_eq!(q.best().unwrap(), "1.2.3.4:5");
    let pe = endpoint_of_answer("1.2.3.4:5").unwrap();
    assert_eq!((pe.ip.as_str(), pe.port), ("1.2.3.4", 5));
    assert!(endpoint_of_answer("1.2.3.4").is_none());
    assert!(endpoint_of_answer("1.2.3.4:70000").is_none());
    let mut early = StunQuery::new(100);
    for _ in 0..32 {
        assert_eq!(early.offer(&vec![1], None), StunOffer::Kept);
    }
    assert_eq!(early.offer(&vec![1], None), StunOffer::Overflow);
}

#[test]
fn probes_are_answered_and_read_back() {
    let body = probe_body(1_400, 0x0102_0304, 77);
    assert_eq!(body.len(), 10 + 1_400 - 44);
    assert_eq!(body[10], 0xAB);
    assert_eq!(probe_body(20, 1, 2).len(), 10);
    let head = match plan_parsed(ControlTag::Pmtu, &body, false) {
        ParsedPlan::AnswerProbe { head } => head,
        _ => panic!("no answer"),
    };
    assert!(matches!(
        plan_parsed(ControlTag::Pmar, &head, false),
        ParsedPlan::ProbeAck { size: 1_400, session: 0x0102_0304, probe: 77 }
    ));
    assert!(matches!(plan_parsed(ControlTag::Pmar, &head, true), ParsedPlan::Ignore));
    assert!(matches!(plan_parsed(ControlTag::Pmtu, &head[..9], false), ParsedPlan::Ignore));
    assert!(matches!(plan_parsed(ControlTag::Ctsig, &head, false), ParsedPlan::Signed));
    assert!(matches!(plan_parsed(ControlTag::Hpch, &head, false), ParsedPlan::Control));
}

#[test]
fn combined_packets_with_a_list_need_a_signature() {
    let parts = MctlParts {
        flag_hb: true,
        flag_hol: false,
        flag_msyn: true,
        signaling_ok: true,
        has_vip: true,
        msyn_ok: true,
        has_msyn: true,
    };
    let plan = plan_mctl(parts, true);
    assert!(plan.hb && !plan.hol && plan.msyn);
    let plan = plan_mctl(parts, false);
    assert!(!plan.hb && !plan.hol && !plan.msyn);
    let plan = plan_mctl(MctlParts { flag_msyn: false, msyn_ok: false, ..parts }, false);
    assert!(plan.hb && !plan.msyn);
}

#[test]
fn ways_are_tried_by_kind() {
    let c = |kind: &str, port| IceCandidate { ip: s("1.2.3.4"), port, kind: s(kind) };
    let out = order_candidates(vec![
        c("relay", 1),
        c("host", 2),
        c("srflx", 3),
        c("upnp", 4),
        c("srflx", 5),
    ]);
    let ports: Vec<u16> = out.iter().map(|c| c.port).collect();
    assert_eq!(ports, vec![3, 5, 4, 2, 1]);
    assert_eq!(ice_pause(49), Some(30));
    assert_eq!(ice_pause(50), Some(100));
    assert_eq!(ice_pause(75), Some(500));
    assert_eq!(ice_pause(76), None);
}

#[test]
fn rosters_leave_out_the_own_route() {
    let mut eng = peer_engine();
    eng.routing.update(&s("10.1.1.5"), local(5), Some(&s("a")), 0);
    let named = |vip: &str, node: &str| {
        Some(RosterChange::Upsert(PeerInfo {
            node_id: s(node),
            name: s(node),
            virtual_ip: s(vip),
            real_ip: local(5),
        }))
    };
    let upsert = |vip: &str, node: Option<&str>| {
        let node = node.map(s);
        eng.notify_roster_upsert(true, &s(vip), local(5), node.as_ref())
    };
    assert_eq!(upsert("10.1.1.5", None), named("10.1.1.5", "a"));
    assert_eq!(upsert("10.1.1.5", Some("")), named("10.1.1.5", "a"));
    assert_eq!(upsert("10.1.1.5", Some("b")), named("10.1.1.5", "b"));
    assert_eq!(upsert("10.1.1.6", None), named("10.1.1.6", ""));
    assert_eq!(upsert("10.1.1.2", None), None);
    assert_eq!(eng.notify_roster_upsert(false, &s("10.1.1.5"), local(5), None), None);
    let gone = s("10.1.1.5");
    assert_eq!(eng.notify_roster_remove(true, &gone), Some(RosterChange::Remove(s("10.1.1.5"))));
    assert_eq!(eng.notify_roster_remove(false, &gone), None);
    assert_eq!(owner_engine().notify_roster_remove(true, &gone), None);
    assert_eq!(owner_engine().notify_roster_upsert(true, &gone, local(5), None), None);
}

#[test]
fn rosters_follow_a_sync() {
    let mut eng = peer_engine();
    eng.routing.update(&s("10.1.1.5"), local(5), Some(&s("a")), 0);
    eng.routing.update(&s("10.1.1.6"), local(6), Some(&s("b")), 0);
    let at = ep(v4(198, 51, 100, 7), 7);
    let route = |vip: &str| MsynRoute { vip: Some(s(vip)), ep: Some(at), node_id: Some(s("c")) };
    let removed = vec![s("10.1.1.5")];
    let routes = vec![route("10.1.1.7"), route("10.1.1.2")];
    let from = ep(v4(198, 51, 100, 1), 1);
    let fx = match eng.apply_msyn_epoch(from, 0, 9, &removed, &routes, 0) {
        MsynApply::Applied(fx) => fx,
        _ => panic!("not applied"),
    };
    let there = PeerInfo { node_id: s("c"), name: s("c"), virtual_ip: s("10.1.1.7"), real_ip: at };
    assert_eq!(
        eng.roster_changes(true, &fx),
        vec![
            RosterChange::Remove(s("10.1.1.5")),
            RosterChange::Upsert(there),
            RosterChange::Remove(s("10.1.1.6")),
        ]
    );
    assert_eq!(eng.roster_changes(false, &fx), vec![]);
}

#[test]
fn punches_end_the_checks_of_their_node() {
    let mut eng = owner_engine();
    eng.routing.update(&s("10.1.1.5"), local(5), Some(&s("a")), 0);
    let other = ep(v4(198, 51, 100, 7), 7);
    let refused = eng.apply_hol_body(b"10.1.1.5", other, false, false, 0);
    assert_eq!(refused.learned, Learned::Refused);
    assert_eq!(refused.checks_done, None);
    let same = eng.apply_hol_body(b"10.1.1.5", local(5), false, false, 0);
    assert_eq!(same.learned, Learned::Route { moved_from: Some(local(5)) });
    assert_eq!(same.checks_done, Some(s("a")));
    let moved = eng.apply_hol_body(b" 10.1.1.5 ", other, true, true, 0);
    assert_eq!(moved.learned, Learned::Route { moved_from: Some(local(5)) });
    assert_eq!(moved.checks_done, Some(s("a")));
    assert_eq!(eng.routing.lookup(&s("10.1.1.5")), Some(other));
    assert_eq!(endpoint_left(Some(local(5)), other), Some(local(5)));
    assert_eq!(endpoint_left(Some(other), other), None);
    assert_eq!(endpoint_left(None, other), None);
    let mut peer = peer_engine();
    assert_eq!(peer.apply_hol_body(b"10.1.1.5", other, true, true, 0).checks_done, None);
}

#[test]
fn announced_peers_are_tried_when_new() {
    let mut last: Table<Endpoint, ()> = Table::new();
    let peers = vec![local(1), local(2)];
    assert_eq!(plan_announce(&mut last, false, true, &peers, true), AnnouncePlan::Reconnect);
    assert_eq!(plan_announce(&mut last, true, true, &peers, false), AnnouncePlan::Punch);
    assert_eq!(plan_announce(&mut last, true, true, &peers, false), AnnouncePlan::Nothing);
    assert_eq!(plan_announce(&mut last, true, true, &peers, true), AnnouncePlan::Punch);
    assert_eq!(plan_announce(&mut last, true, true, &vec![local(3)], false), AnnouncePlan::Punch);
    assert_eq!(last.len(), 3);
}

#[test]
fn tuning_that_changed_flushes() {
    let k = FecKnobs {
        shard_payload_size: 1_279,
        flush_ms: 2,
        flush_aggressive_ms: 1,
        frame_scratch_bytes: 2_048,
    };
    assert!(!fec_retune_needed(k, k));
    assert!(fec_retune_needed(k, FecKnobs { flush_ms: 3, ..k }));
}
