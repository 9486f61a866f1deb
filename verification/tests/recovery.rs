use floatnet::addr::{Endpoint, IpAddr};
use floatnet::engine_cmd::{Engine, PublicEndpoint};
use floatnet::engine_data::{data_way, DataUse, DataWay};
use floatnet::engine_reconnect::{ReconnectPlan, Searching};
use floatnet::engine_routes::{MsynApply, MsynRoute};
use floatnet::engine_state::EngineState;
use floatnet::engine_stun::{StunQueries, StunResolved};
use floatnet::engine_ticks::{PendingPingKind, PendingPings};
use floatnet::fec_codec::{build_fec_packet, FrameHead};
use floatnet::fec_decoder::FEC_GROUP_TTL;
use floatnet::fec_decoders::FecDecoders;
use floatnet::keys::Key;
use floatnet::msyn_assemble::{MsynAssembleMap, MsynPart};
use floatnet::mtu_policy::MtuPolicy;
use floatnet::punch_state::PunchState;
use floatnet::routing::{RouteState, RoutingTable};
use floatnet::table::Table;
use floatnet::wire::{decode_ping_payload, decode_pong_payload, encode_pong_payload};

fn v4(a: u8, b: u8, c: u8, d: u8) -> u32 {
    u32::from_be_bytes([a, b, c, d])
}

fn ep(ip: u32, port: u16) -> Endpoint {
    Endpoint { ip: IpAddr::V4(ip), port }
}

fn local(port: u16) -> Endpoint {
    ep(v4(127, 0, 0, 1), port)
}

fn s(text: &str) -> String {
    text.to_string()
}

fn peer_engine() -> EngineState {
    EngineState::new(false, v4(10, 1, 1, 2), s("n"), 24)
}

fn owner_engine() -> EngineState {
    EngineState::new(true, v4(10, 1, 1, 1), s("o"), 24)
}

fn set_state(rt: &mut RoutingTable, vip: &str, state: RouteState) {
    let i = rt.table.find(&s(vip)).unwrap();
    rt.table.entries[i].1.state = state;
}

#[test]
fn ping_is_answered_with_its_delay() {
    let mut eng = peer_engine();
    eng.routing.update(&s("10.1.1.5"), local(5), None, 0);
    set_state(&mut eng.routing, "10.1.1.5", RouteState::Stale);
    let mut pings = PendingPings::new();
    let (id, ping) = pings.begin(local(5), false, PendingPingKind::Probe, 1_000, 3_000);
    assert_eq!(decode_ping_payload(&ping), Some((id, 1_000)));
    let pong = eng.handle_ping_body(&ping, local(5), 1_025, 7).unwrap();
    assert_eq!(decode_pong_payload(&pong), Some((id, 1_000, 25)));
    let i = eng.routing.table.find(&s("10.1.1.5")).unwrap();
    assert!(eng.routing.table.entries[i].1.state != RouteState::Stale);
    assert!(eng.handle_ping_body(&ping[..15], local(5), 1_025, 7).is_none());
}

#[test]
fn pong_ends_the_ping_of_its_sender() {
    let mut eng = peer_engine();
    let mut pings = PendingPings::new();
    let (id, _) = pings.begin(local(5), false, PendingPingKind::User, 1_000, 3_000);
    let pong = encode_pong_payload(id, 1_000, -3);
    assert!(eng.handle_pong_body(&mut pings, &pong, local(6), 1_040, 7).is_none());
    assert_eq!(pings.pings.len(), 1);
    let got = eng.handle_pong_body(&mut pings, &pong, local(5), 1_040, 7).unwrap();
    assert_eq!((got.rtt_ms, got.fwd_owd_ms), (40, -3));
    assert!(matches!(got.kind, PendingPingKind::User));
    assert_eq!(pings.pings.len(), 0);
    assert!(eng.handle_pong_body(&mut pings, &pong, local(5), 1_040, 7).is_none());
    let (id, _) = pings.begin(local(5), true, PendingPingKind::Probe, 1_000, 3_000);
    let pong = encode_pong_payload(id, 1_000, 0);
    let got = eng.handle_pong_body(&mut pings, &pong, local(9), 1_000, 7).unwrap();
    assert_eq!(got.rtt_ms, 1);
}

#[test]
fn unanswered_pings_give_the_recovery_up() {
    let mut eng = peer_engine();
    eng.feature_flags.predictive_heal = true;
    let vip = s("10.1.1.5");
    eng.routing.update(&vip, local(5), None, 0);
    assert_eq!(eng.begin_heal(&vip, 0, 3, 0), Some(local(5)));
    let heal = |port| PendingPingKind::Heal { vip: s("10.1.1.5"), endpoint: local(port) };
    let mut pings = PendingPings::new();
    pings.begin(local(5), false, heal(5), 0, 100);
    pings.begin(local(6), false, heal(6), 0, 200);
    let (user, _) = pings.begin(local(7), false, PendingPingKind::User, 0, 150);
    assert!(eng.expire_pending_pings(&mut pings, 100, 500).is_empty());
    assert!(eng.pending_heal_vips.contains(&vip));
    assert_eq!(eng.expire_pending_pings(&mut pings, 200, 500), vec![user]);
    assert!(!eng.pending_heal_vips.contains(&vip));
    assert_eq!(eng.heal_cooldown_until.get(&vip), Some(&700));
    assert_eq!(pings.pings.len(), 0);
}

#[test]
fn answered_ping_ends_the_recovery() {
    let mut eng = peer_engine();
    eng.feature_flags.predictive_heal = true;
    let vip = s("10.1.1.5");
    eng.routing.update(&vip, local(5), None, 0);
    let mut pings = PendingPings::new();
    assert!(!eng.handle_heal_success(&pings, &vip));
    assert!(eng.begin_heal(&vip, 0, 3, 0).is_some());
    let kind = PendingPingKind::Heal { vip: vip.clone(), endpoint: local(5) };
    let (id, _) = pings.begin(local(5), false, kind, 0, 100);
    assert!(eng.handle_heal_success(&pings, &vip));
    assert!(eng.pending_heal_vips.contains(&vip));
    pings.pings.remove(&id);
    assert!(eng.handle_heal_success(&pings, &vip));
    assert!(!eng.pending_heal_vips.contains(&vip));
}

fn engine() -> Engine {
    Engine::new(peer_engine(), MtuPolicy::new(576, 1400), 16)
}

fn public(ip: &str, port: u16) -> PublicEndpoint {
    PublicEndpoint { ip: s(ip), port }
}

fn stun_packet() -> Vec<u8> {
    let mut buf = vec![0u8; 20];
    buf[0] = 1;
    buf[4..8].copy_from_slice(&0x2112A442u32.to_be_bytes());
    buf
}

fn answers(list: Vec<(u64, PublicEndpoint)>) -> Table<u64, PublicEndpoint> {
    let mut t = Table::new();
    for (id, e) in list {
        t.insert(id, e);
    }
    t
}

#[test]
fn two_equal_answers_decide_a_query() {
    let mut eng = engine();
    let mut q = StunQueries::new();
    eng.stun_queries.insert(7, ());
    q.begin(7, 1_000);
    let buf = stun_packet();
    let (taken, done) = eng.handle_stun_datagram(&mut q, &buf, &answers(vec![]), 0);
    assert!(taken && done.is_none());
    assert_eq!(q.pending.get(&7).unwrap().early.len(), 1);
    let early = vec![Some(public("192.0.2.1", 4000))];
    let r = eng.handle_stun_resolve_result(&mut q, 7, true, Some(local(3)), 2_000, &early, 5);
    assert!(matches!(r, StunResolved::Waiting));
    assert_eq!(eng.stun_keepalive_addr, Some(local(3)));
    let foreign = eng.handle_stun_datagram(&mut q, &buf, &answers(vec![]), 6);
    assert!(!foreign.0);
    let said = answers(vec![(7, public("192.0.2.1", 4000))]);
    let (taken, done) = eng.handle_stun_datagram(&mut q, &buf, &said, 9);
    assert!(taken);
    let (id, e) = done.unwrap();
    assert_eq!((id, e.ip.as_str(), e.port), (7, "192.0.2.1", 4000));
    assert!(eng.stun_queries.is_empty());
    let (at, kept) = eng.public_ep.as_ref().unwrap();
    assert_eq!((*at, kept.ip.as_str(), kept.port), (9, "192.0.2.1", 4000));
    assert_eq!(q.pending.len(), 0);
}

#[test]
fn datagrams_without_the_cookie_are_not_taken() {
    let mut eng = engine();
    let mut q = StunQueries::new();
    q.begin(1, 1_000);
    let (taken, done) = eng.handle_stun_datagram(&mut q, &vec![0; 20], &answers(vec![]), 0);
    assert!(!taken && done.is_none());
    assert_eq!(q.pending.get(&1).unwrap().early.len(), 0);
}

#[test]
fn time_ends_a_query_with_what_is_there() {
    let mut eng = engine();
    let mut q = StunQueries::new();
    for id in [1, 2, 3] {
        eng.stun_queries.insert(id, ());
        q.begin(id, 100 * id);
    }
    let early = vec![None, Some(public("192.0.2.9", 65535))];
    let r = eng.handle_stun_resolve_result(&mut q, 2, true, Some(local(3)), 150, &early, 0);
    assert!(matches!(r, StunResolved::Waiting));
    let out = eng.poll_stun_query(&mut q, 200);
    let ids: Vec<u64> = out.iter().map(|(id, _)| *id).collect();
    assert_eq!(ids, vec![1, 2]);
    assert!(out[0].1.is_none());
    let e = out[1].1.as_ref().unwrap();
    assert_eq!((e.ip.as_str(), e.port), ("192.0.2.9", 65535));
    assert_eq!(eng.public_ep.as_ref().unwrap().0, 200);
    assert_eq!(eng.stun_queries.len(), 1);
    let r = eng.handle_stun_resolve_result(&mut q, 2, true, Some(local(4)), 150, &vec![], 0);
    assert!(matches!(r, StunResolved::Ignored));
    assert_eq!(eng.stun_keepalive_addr, Some(local(3)));
    let r = eng.handle_stun_resolve_result(&mut q, 3, false, Some(local(4)), 150, &vec![], 0);
    assert!(matches!(r, StunResolved::Failed));
    assert_eq!(eng.stun_keepalive_addr, None);
    assert_eq!(q.pending.len(), 0);
}

#[test]
fn early_answers_can_decide_a_query() {
    let mut eng = engine();
    let mut q = StunQueries::new();
    eng.stun_queries.insert(4, ());
    eng.stun_queries.insert(5, ());
    q.begin(4, 1_000);
    let same = || Some(public("192.0.2.1", 7));
    let early = vec![same(), Some(public("192.0.2.2", 7)), same()];
    match eng.handle_stun_resolve_result(&mut q, 4, true, None, 2_000, &early, 3) {
        StunResolved::Found(e) => assert_eq!((e.ip.as_str(), e.port), ("192.0.2.1", 7)),
        _ => panic!("two equal answers decide"),
    }
    let r = eng.handle_stun_resolve_result(&mut q, 5, true, None, 2_000, &vec![], 3);
    assert!(matches!(r, StunResolved::Dropped));
}

const SEARCHING: Searching = Searching { join_waiting: false, active: true, owner_healthy: false };

#[test]
fn owner_is_tried_where_it_may_have_gone() {
    let mut eng = peer_engine();
    let owner = ep(v4(203, 0, 113, 1), 1000);
    let moved = ep(v4(203, 0, 113, 1), 2000);
    let mut p = PunchState::new();
    let none = eng.try_reconnect_fastpath_from_announce(&mut p, SEARCHING, None, &vec![moved], 0);
    assert_eq!(none, None);
    eng.id.set_owner_endpoint(owner);
    let healthy = Searching { owner_healthy: true, ..SEARCHING };
    let peers = vec![owner, local(3), moved];
    let quiet = eng.try_reconnect_fastpath_from_announce(&mut p, healthy, None, &peers, 0);
    assert_eq!(quiet, None);
    assert!(p.running.is_empty());
    let got = eng.try_reconnect_fastpath_from_announce(&mut p, SEARCHING, None, &peers, 5);
    assert_eq!(got, Some(moved));
    let again = eng.try_reconnect_fastpath_from_announce(&mut p, SEARCHING, None, &peers, 6);
    assert_eq!(again, None);
    assert_eq!((p.fastpath.last_ep, p.fastpath.last_at), (Some(moved), Some(5)));
    assert!(p.running.contains(&s("decentralized-reconnect-fastpath")));
}

#[test]
fn peers_are_reached_anew_while_the_owner_is_away() {
    let mut eng = peer_engine();
    let old = ep(v4(203, 0, 113, 7), 1111);
    let new_ep = ep(v4(203, 0, 113, 7), 2222);
    let unknown = ep(v4(203, 0, 113, 8), 1);
    let mut p = PunchState::new();
    p.start_punch_workflow_key(s("mine"));
    let peers = vec![new_ep, unknown, new_ep];
    let plan = eng.try_peer_reconnect_from_announce(&mut p, SEARCHING, &peers, 0);
    assert!(matches!(plan, ReconnectPlan::Nothing));
    eng.routing.update(&s("10.1.1.5"), old, Some(&s("p")), 0);
    let plan = eng.try_peer_reconnect_from_announce(&mut p, SEARCHING, &peers, 0);
    assert!(matches!(plan, ReconnectPlan::Nothing));
    eng.crypto_keys.set_primary(Key { bytes: [1; 32], subnet24: (10, 1, 1) });
    match eng.try_peer_reconnect_from_announce(&mut p, SEARCHING, &peers, 0) {
        ReconnectPlan::Start(list) => {
            assert_eq!(list.len(), 2);
            assert_eq!(list[0].peer, Some(s("10.1.1.5")));
            assert_eq!(list[0].bases, vec![new_ep]);
            assert_eq!(list[1].peer, None);
            assert_eq!(list[1].bases, vec![unknown]);
        }
        _ => panic!("two attempts begin"),
    }
    match eng.try_peer_reconnect_from_announce(&mut p, SEARCHING, &peers, 29_999) {
        ReconnectPlan::Start(list) => assert!(list.is_empty()),
        _ => panic!("nothing begins while it rests"),
    }
    assert_eq!(p.running.len(), 3);
    assert!(p.running.contains(&s("peer-reconnect:10.1.1.5")));
    assert!(p.running.contains(&s("peer-reconnect:unbound")));
    eng.id.set_owner_endpoint(local(1));
    let healthy = Searching { owner_healthy: true, ..SEARCHING };
    let plan = eng.try_peer_reconnect_from_announce(&mut p, healthy, &peers, 30_000);
    assert!(matches!(plan, ReconnectPlan::StopAll));
    assert_eq!(p.running.len(), 1);
}

#[test]
fn attempts_wait_for_room() {
    let mut eng = peer_engine();
    eng.crypto_keys.set_primary(Key { bytes: [1; 32], subnet24: (10, 1, 1) });
    let mut peers = Vec::new();
    for n in 3..9u8 {
        let at = v4(203, 0, 113, n);
        eng.routing.update(&format!("10.1.1.{n}"), ep(at, 1), Some(&format!("p{n}")), 0);
        peers.push(ep(at, 2));
    }
    let mut p = PunchState::new();
    p.start_punch_workflow_key(s("peer-reconnect:10.1.1.99"));
    match eng.try_peer_reconnect_from_announce(&mut p, SEARCHING, &peers, 0) {
        ReconnectPlan::Start(list) => assert_eq!(list.len(), 3),
        _ => panic!("there is room for three"),
    }
    assert_eq!(p.distinct_peer_reconnect_key_count(), 4);
    match eng.try_peer_reconnect_from_announce(&mut p, SEARCHING, &peers, 30_000) {
        ReconnectPlan::Start(list) => assert_eq!(list.len(), 3),
        _ => panic!("those that run begin anew"),
    }
    assert_eq!(p.distinct_peer_reconnect_key_count(), 4);
}

#[test]
fn stale_peers_go_and_the_others_are_told() {
    let mut eng = owner_engine();
    eng.routing.update(&s("10.1.1.5"), local(5), Some(&s("five")), 0);
    eng.routing.update(&s("10.1.1.6"), local(6), None, 900);
    eng.routing.update(&s("10.1.1.7"), local(7), None, 0);
    set_state(&mut eng.routing, "10.1.1.5", RouteState::Stale);
    set_state(&mut eng.routing, "10.1.1.6", RouteState::Stale);
    set_state(&mut eng.routing, "10.1.1.7", RouteState::Active);
    eng.sync.peer_sync_state.insert(s("10.1.1.5"), 3);
    eng.sync.peer_sync_state.insert(s("10.1.1.7"), 4);
    let k = eng.crypto_keys.set_primary(Key { bytes: [1; 32], subnet24: (10, 1, 1) });
    eng.crypto_keys.bind_peer_key(local(5), k);
    eng.crypto_keys.bind_peer_key(local(99), k);
    let gone = eng.evict_stale_routes(1_000, 2_000, 500);
    assert_eq!(gone.len(), 1);
    assert_eq!(gone[0].gone.vip, "10.1.1.5");
    assert_eq!(gone[0].gone.node_id, Some(s("five")));
    assert_eq!(gone[0].ep, Some(local(5)));
    assert_eq!(eng.routing.lookup(&s("10.1.1.5")), None);
    assert_eq!(eng.routing.lookup(&s("10.1.1.6")), Some(local(6)));
    assert_eq!(eng.sync.peer_sync_state.len(), 1);
    assert!(eng.sync.peer_pending_removals.get(&s("10.1.1.7")).unwrap().contains(&s("10.1.1.5")));
    assert!(eng.sync.peer_pending_removals.get(&s("10.1.1.6")).is_none());
    assert_eq!(eng.crypto_keys.per_peer.len(), 0);
}

fn part(idx: u64, removed: Vec<String>, routes: Vec<MsynRoute>) -> MsynPart {
    MsynPart {
        proto_ver: Some(4),
        schema_ver: Some(1),
        from_rev: Some(1),
        to_rev: Some(5),
        sync_id: Some(9),
        part_idx: Some(idx),
        parts_total: Some(2),
        routes,
        removed,
    }
}

#[test]
fn last_part_applies_the_sync() {
    for order in [[0, 1], [1, 0]] {
        let mut eng = peer_engine();
        let mut map = MsynAssembleMap::new();
        eng.routing.update(&s("10.1.1.9"), local(9), None, 0);
        let route = || MsynRoute { vip: Some(s("10.1.1.5")), ep: Some(ep(7, 7)), node_id: None };
        let make = |i| {
            if i == 0 {
                part(0, vec![s("10.1.1.9")], vec![])
            } else {
                part(1, vec![], vec![route()])
            }
        };
        let first = eng.handle_msyn_body(&mut map, make(order[0]), local(1), 10);
        assert!(first.stop_reconnects && first.applied.is_none());
        let last = eng.handle_msyn_body(&mut map, make(order[1]), local(1), 11);
        assert!(last.stop_reconnects);
        assert!(matches!(last.applied, Some(MsynApply::Applied(_))));
        assert_eq!(eng.routing.lookup(&s("10.1.1.9")), None);
        assert_eq!(eng.routing.lookup(&s("10.1.1.5")), Some(ep(7, 7)));
        assert_eq!(eng.sync.msyn_applied_to_rev, 5);
        let stale = eng.handle_msyn_body(&mut map, make(0), local(1), 12);
        assert!(!stale.stop_reconnects && stale.applied.is_none());
    }
}

#[test]
fn each_peer_has_its_own_decoder() {
    let mut decs = FecDecoders::new(7);
    let head = |shard_idx| FrameHead { group_id: 1, shard_idx, data_shards: 2, parity_shards: 0 };
    let shard = |b: u8| build_fec_packet(7, head(b), &vec![3, 0, b, b, b]);
    assert!(!decs.push(local(1), &shard(0), 0).invalid);
    assert!(decs.push(local(2), &shard(1), 0).recovered.is_empty());
    let done = decs.push(local(1), &shard(1), 0);
    assert_eq!(done.recovered, vec![vec![0; 3], vec![1; 3]]);
    let mut rt = RoutingTable::new();
    rt.update(&s("10.1.1.5"), local(1), None, 0);
    decs.prune(&rt, FEC_GROUP_TTL - 1);
    assert_eq!(decs.by_peer.len(), 2);
    decs.prune(&rt, FEC_GROUP_TTL + 1);
    assert_eq!(decs.by_peer.len(), 1);
    decs.remove(local(1));
    assert_eq!(decs.by_peer.len(), 0);
}

#[test]
fn data_packets_take_their_way() {
    assert_eq!(data_way(DataUse::Own, false, false), DataWay::Fec);
    assert_eq!(data_way(DataUse::Forward, false, false), DataWay::Queue);
    assert_eq!(data_way(DataUse::Own, true, true), DataWay::Raw);
    assert_eq!(data_way(DataUse::Forward, true, false), DataWay::Oversize);
    assert_eq!(data_way(DataUse::Direct, false, true), DataWay::Send);
    assert_eq!(data_way(DataUse::Direct, true, false), DataWay::Oversize);
}

#[test]
fn control_packets_race_along_all_paths() {
    let mut eng = peer_engine();
    eng.feature_flags.multipath_core = true;
    eng.feature_flags.control_path_race = true;
    assert_eq!(eng.control_race_dests(local(1), vec![]), vec![local(1)]);
    assert_eq!(eng.control_race_dests(local(1), vec![local(2), local(1)]), vec![local(2), local(1)]);
    eng.feature_flags.control_path_race = false;
    assert_eq!(eng.control_race_dests(local(1), vec![local(2)]), vec![local(1)]);
}

#[test]
fn endpoints_are_remembered_once_there_is_an_address() {
    let mut eng = peer_engine();
    assert!(eng.remembers_endpoint(&s("10.1.1.5")));
    assert!(!eng.remembers_endpoint(&s("ten")));
    eng.reset_session();
    assert!(!eng.remembers_endpoint(&s("10.1.1.5")));
}
