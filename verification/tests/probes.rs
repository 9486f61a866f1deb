use floatnet::addr::{Endpoint, IpAddr};
use floatnet::decentralized::{listen_port, LISTEN_PORT_MIN};
use floatnet::engine_bytes::RxBytes;
use floatnet::engine_cmd::{CmdPlan, Engine, EngineCmd};
use floatnet::engine_ctrl::{MsmdEvent, MsmdKind, MsmdOutcome};
use floatnet::engine_para::{
    plan_para, Notified, ParaCandidate, ParaHelloMsg, ParaMessage, ParaNoteMsg, ParaReplyMsg,
    ParaSignal,
};
use floatnet::engine_probe::HEAL_PROBE_MS;
use floatnet::engine_routes::{MsynApply, MsynRoute};
use floatnet::engine_rx::{FecKnobs, IceCandidate};
use floatnet::engine_state::EngineState;
use floatnet::engine_ticks::{PendingPingKind, PendingPings};
use floatnet::keys::Key;
use floatnet::msyn_sync::{rows_to_serve, RouteSyncRow};
use floatnet::mtu_policy::{reschedule_pmtud_interval, MtuPolicy};
use floatnet::pace_clock::{clamp_tick_us, PaceClockApply};
use floatnet::pacing::{PacingConfig, PacingEngine};
use floatnet::routing::{RelaySelection, RouteState, RoutingTable};
use floatnet::wire::{decode_ping_payload, encode_pong_payload, ControlTag};

fn v4(a: u8, b: u8, c: u8, d: u8) -> u32 {
    u32::from_be_bytes([a, b, c, d])
}

fn local(port: u16) -> Endpoint {
    Endpoint { ip: IpAddr::V4(v4(127, 0, 0, 1)), port }
}

fn s(text: &str) -> String {
    text.to_string()
}

fn peer_engine() -> EngineState {
    EngineState::new(false, v4(10, 1, 1, 2), s("n"), 24)
}

fn owner_engine() -> EngineState {
    EngineState::new(true, v4(10, 1, 1, 1), s("o"), 24)
}

fn engine(state: EngineState) -> Engine {
    Engine::new(state, MtuPolicy::new(576, 1400), 64)
}

fn key(byte: u8) -> Key {
    Key { bytes: [byte; 32], subnet24: (10, byte, 1) }
}

fn set_state(rt: &mut RoutingTable, vip: &str, state: RouteState) {
    let i = rt.table.find(&s(vip)).unwrap();
    rt.table.entries[i].1.state = state;
}

fn three_peers() -> EngineState {
    let mut eng = owner_engine();
    for n in 3..6u8 {
        let vip = format!("10.1.1.{n}");
        eng.routing.update(&vip, local(u16::from(n)), Some(&format!("node{n}")), 0);
        set_state(&mut eng.routing, &vip, RouteState::Degraded);
    }
    eng
}

#[test]
fn retries_go_round() {
    let eng = three_peers();
    let plan = eng.direct_retry_tick(0, 2, &vec![local(9)], 4);
    assert_eq!(plan.punch, vec![local(3), local(4)]);
    assert_eq!(plan.cursor, 2);
    assert!(plan.keepalive.is_empty());
    assert_eq!(plan.owner, None);
    let plan = eng.direct_retry_tick(plan.cursor, 2, &Vec::new(), 4);
    assert_eq!(plan.punch, vec![local(5), local(3)]);
    assert_eq!(plan.cursor, 1);
}

#[test]
fn retries_leave_active_routes_alone() {
    let mut eng = three_peers();
    set_state(&mut eng.routing, "10.1.1.4", RouteState::Active);
    let plan = eng.direct_retry_tick(0, 10, &Vec::new(), 0);
    assert_eq!(plan.punch, vec![local(3), local(5)]);
}

#[test]
fn retries_keep_other_paths_open_where_they_are_probed() {
    let mut eng = peer_engine();
    eng.feature_flags.multipath_bandwidth_prober = true;
    let plan = eng.direct_retry_tick(7, 3, &vec![local(1), local(2), local(3)], 2);
    assert!(plan.punch.is_empty());
    assert_eq!(plan.cursor, 7);
    assert_eq!(plan.keepalive, vec![local(1), local(2)]);
}

#[test]
fn owner_without_a_route_is_punched() {
    let mut eng = peer_engine();
    eng.id.set_owner_endpoint(local(77));
    assert_eq!(eng.direct_retry_tick(0, 1, &Vec::new(), 0).owner, Some(local(77)));
    eng.routing.update(&s("10.1.1.1"), local(77), None, 0);
    assert_eq!(eng.direct_retry_tick(0, 1, &Vec::new(), 0).owner, None);
}

#[test]
fn measuring_pings_the_peers_in_turn() {
    let mut eng = three_peers();
    set_state(&mut eng.routing, "10.1.1.3", RouteState::Stale);
    let mut pings = PendingPings::new();
    let (probes, next) = eng.send_cc_probes(&mut pings, true, 1, 1, 500, 1_000);
    assert_eq!(next, 0);
    assert_eq!(probes.len(), 1);
    assert_eq!(probes[0].to, local(5));
    assert_eq!(decode_ping_payload(&probes[0].body), Some((probes[0].id, 500)));
    let p = pings.pings.get(&probes[0].id).unwrap();
    assert_eq!(p.deadline, 3_000);
    assert!(!p.allow_ip_match);
    let (none, at) = eng.send_cc_probes(&mut pings, false, 1, 1, 500, 1_000);
    assert!(none.is_empty());
    assert_eq!(at, 1);
    assert_eq!(pings.pings.len(), 1);
}

#[test]
fn recovery_asks_three_endpoints_and_ends_with_an_answer() {
    let mut eng = three_peers();
    let mut pings = PendingPings::new();
    let found = vec![local(3), local(30), local(31), local(32)];
    let vip = s("10.1.1.3");
    let probes = eng.spawn_predictive_heal(&mut pings, &vip, found, 8, 500, 1_000).unwrap();
    assert_eq!(probes.len(), 3);
    assert_eq!(probes[2].to, local(31));
    assert_eq!(pings.heal_count(), 3);
    assert!(eng.pending_heal_vips.contains(&vip));
    assert_eq!(pings.pings.get(&probes[0].id).unwrap().deadline, 1_000 + HEAL_PROBE_MS);
    assert!(eng.spawn_predictive_heal(&mut pings, &vip, Vec::new(), 8, 500, 1_000).is_none());

    eng.heal_probes_sent(&mut pings, &vip, &probes, &vec![true, false, true], 1_000, 5_000);
    assert_eq!(pings.heal_count(), 2);
    assert!(eng.pending_heal_vips.contains(&vip));

    for p in [&probes[0], &probes[2]] {
        let pong = encode_pong_payload(p.id, 500, 3);
        let answer = eng.handle_pong_body(&mut pings, &pong, p.to, 520, 7).unwrap();
        assert_eq!(answer.rtt_ms, 20);
        match answer.kind {
            PendingPingKind::Heal { vip, .. } => {
                assert!(eng.handle_heal_success(&pings, &vip));
            }
            _ => panic!("a recovery was asked for"),
        }
    }
    assert!(!eng.pending_heal_vips.contains(&vip));
}

#[test]
fn recovery_without_a_probe_fails_and_rests() {
    let mut eng = three_peers();
    let mut pings = PendingPings::new();
    let vip = s("10.1.1.4");
    let probes = eng.spawn_predictive_heal(&mut pings, &vip, Vec::new(), 8, 0, 1_000).unwrap();
    assert_eq!(probes.len(), 1);
    assert_eq!(probes[0].to, local(4));
    eng.heal_probes_sent(&mut pings, &vip, &probes, &vec![false], 1_000, 5_000);
    assert_eq!(pings.heal_count(), 0);
    assert!(!eng.pending_heal_vips.contains(&vip));
    assert!(eng.spawn_predictive_heal(&mut pings, &vip, Vec::new(), 8, 0, 5_999).is_none());
    assert!(eng.spawn_predictive_heal(&mut pings, &vip, Vec::new(), 8, 0, 6_000).is_some());
}

#[test]
fn recoveries_are_limited() {
    let mut eng = three_peers();
    let mut pings = PendingPings::new();
    let first = eng.spawn_predictive_heal(&mut pings, &s("10.1.1.3"), Vec::new(), 1, 0, 0);
    assert!(first.is_some());
    let second = eng.spawn_predictive_heal(&mut pings, &s("10.1.1.4"), Vec::new(), 1, 0, 0);
    assert!(second.is_none());
    let unknown = eng.spawn_predictive_heal(&mut pings, &s("10.1.1.9"), Vec::new(), 9, 0, 0);
    assert!(unknown.is_none());
    assert!(!eng.pending_heal_vips.contains(&s("10.1.1.9")));
}

#[test]
fn relay_is_replaced_after_it_failed() {
    let eng = peer_engine();
    assert_eq!(eng.relay_hop(local(1), false, RelaySelection::Hop(local(2))), Some(local(1)));
    assert_eq!(eng.relay_hop(local(1), true, RelaySelection::Hop(local(2))), Some(local(2)));
    assert_eq!(eng.relay_hop(local(1), true, RelaySelection::NoHop), None);
    assert_eq!(owner_engine().relay_hop(local(1), false, RelaySelection::NoHop), None);
}

#[test]
fn path_size_reaches_the_adapter_unless_pinned() {
    let mut p = MtuPolicy::new(576, 1400);
    assert!(p.set_adapter_name(s("tun0"), 0, 0).is_none());
    assert!(p.path_changed(true, 1300, 0).is_none());
    let c = p.path_changed(false, 1300, 0).unwrap();
    assert_eq!((c.adapter.as_str(), c.mtu), ("tun0", 1300));
    assert!(p.path_changed(false, 1310, 29_999).is_none());
    assert_eq!(p.path_changed(false, 1310, 30_000).unwrap().mtu, 1310);
    p.pinned = true;
    assert!(p.path_changed(false, 900, 90_000).is_none());
}

#[test]
fn paths_are_probed_when_due() {
    assert_eq!(reschedule_pmtud_interval(5, 0, true, 900, 0), 10);
    assert_eq!(reschedule_pmtud_interval(100, 60, true, 90_000, 0), 100);
    assert_eq!(reschedule_pmtud_interval(100, 60, false, 5_000, 1_000), 4_000);
    assert_eq!(reschedule_pmtud_interval(100, 60, false, 1_000, 5_000), 100);
    assert_eq!(reschedule_pmtud_interval(100, 2, false, 90_000, 0), 2_000);
    assert_eq!(reschedule_pmtud_interval(100, u64::MAX, false, u64::MAX, 0), u64::MAX);
}

#[test]
fn messages_between_networks_are_recent() {
    let from = local(9);
    let note = |ts_ms| ParaNoteMsg { node_id: s("n"), ts_ms, session_id: s("x") };
    let told = ParaSignal::OkReceived { from, node_id: s("n"), session_id: s("x") };
    assert_eq!(plan_para(ParaMessage::Agreed(note(1_000)), from, 91_000), Some(told.clone()));
    assert_eq!(plan_para(ParaMessage::Agreed(note(1_000)), from, 91_001), None);
    assert_eq!(plan_para(ParaMessage::Agreed(note(91_000)), from, 1_000), Some(told.clone()));
    let punched = ParaSignal::PunchAckReceived { from, node_id: s("n"), session_id: s("x") };
    assert_eq!(plan_para(ParaMessage::PunchAck(note(0)), from, 0), Some(punched));
    assert!(told.is_critical());
}

#[test]
fn messages_between_networks_are_told_whole() {
    let from = local(9);
    let candidates = vec![ParaCandidate { ip: s("192.0.2.1"), port: 5, kind: s("host") }];
    let hello = ParaHelloMsg {
        node_id: s("n"),
        public_ip: s("192.0.2.9"),
        public_port: 9,
        proposed_key_hex: s("ab"),
        proposed_vip_subnet: s("10.9.9.0/24"),
        ts_ms: 5,
        candidates: candidates.clone(),
        start_at_ms: 77,
        session_id: s("x"),
        discover_only: true,
    };
    let signal = plan_para(ParaMessage::Hello(hello), from, 5).unwrap();
    assert!(!signal.is_critical());
    let want = ParaSignal::HelloReceived {
        from,
        public_ip: s("192.0.2.9"),
        public_port: 9,
        proposed_key: s("ab"),
        proposed_vip_subnet: s("10.9.9.0/24"),
        node_id: s("n"),
        candidates: candidates.clone(),
        start_at_ms: 77,
        session_id: s("x"),
        discover_only: true,
    };
    assert_eq!(signal, want);
    let reply = ParaReplyMsg {
        node_id: s("m"),
        public_ip: s("192.0.2.8"),
        public_port: 8,
        assigned_vip: s("10.9.9.7"),
        network_id: s("net"),
        ts_ms: 5,
        candidates: candidates.clone(),
        agreed_start_at_ms: 78,
        session_id: s("x"),
        responder_vip: s("10.9.9.1"),
        responder_is_owner: true,
        network_name: s("home"),
        network_key_hex: s("cd"),
    };
    let want = ParaSignal::ReplyReceived {
        from,
        public_ip: s("192.0.2.8"),
        public_port: 8,
        assigned_vip: s("10.9.9.7"),
        network_id: s("net"),
        node_id: s("m"),
        candidates,
        agreed_start_at_ms: 78,
        session_id: s("x"),
        responder_vip: s("10.9.9.1"),
        responder_is_owner: true,
        network_name: s("home"),
        network_key_hex: s("cd"),
    };
    assert_eq!(plan_para(ParaMessage::Reply(reply), from, 5), Some(want));
}

#[test]
fn closed_listeners_are_forgotten() {
    let mut e = engine(peer_engine());
    let add = || EngineCmd::ParaSetListener { replace_existing: false, closed: Vec::new() };
    for _ in 0..3 {
        e.handle_cmd(add(), 0);
    }
    let missed = e.try_para_notify(&vec![
        (1, Notified::Taken),
        (2, Notified::Closed),
        (3, Notified::Full),
    ]);
    assert_eq!(missed, vec![3]);
    assert!(e.para_listeners.contains_key(&1));
    assert!(!e.para_listeners.contains_key(&2));
    assert!(e.para_listeners.contains_key(&3));
}

#[test]
fn announced_port_has_a_floor() {
    assert_eq!(listen_port(None), LISTEN_PORT_MIN);
    assert_eq!(listen_port(Some(80)), 7878);
    assert_eq!(listen_port(Some(40_000)), 40_000);
}

fn row(vip: &str, state: RouteState) -> RouteSyncRow {
    RouteSyncRow {
        vip: s(vip),
        endpoint: s("1.2.3.4:5"),
        node_id: s(""),
        last_modified_revision: 1,
        state,
    }
}

#[test]
fn owner_serves_peers_that_are_not_stale() {
    let rows = vec![
        row("10.1.1.3", RouteState::Active),
        row("10.1.1.4", RouteState::Stale),
        row("10.1.1.5", RouteState::Candidate),
    ];
    assert_eq!(rows_to_serve(true, &rows), vec![0, 2]);
    assert!(rows_to_serve(false, &rows).is_empty());
}

#[test]
fn removals_of_all_peers_are_kept_in_mind() {
    let mut eng = three_peers();
    for vip in ["10.1.1.3", "10.1.1.4", "10.1.1.5"] {
        set_state(&mut eng.routing, vip, RouteState::Active);
    }
    eng.sync.note_route_removed_for_sync(true, &eng.routing, &s("10.1.1.3"));
    eng.sync.note_route_removed_for_sync(true, &eng.routing, &s("10.1.1.9"));
    let all = eng.sync.noted_removals();
    assert_eq!(all.len(), 2);
    assert!(all.contains(&s("10.1.1.3")));
    assert!(all.contains(&s("10.1.1.9")));
}

#[test]
fn kick_tells_what_is_to_be_cleaned_up() {
    let mut e = engine(three_peers());
    match e.handle_cmd(EngineCmd::Kick(local(4)), 0) {
        CmdPlan::Kick { torn_down, gone, .. } => {
            let gone = gone.unwrap();
            assert!(torn_down);
            assert_eq!(gone.vip, "10.1.1.4");
            assert_eq!(gone.vip_u32, Some(v4(10, 1, 1, 4)));
            assert_eq!(gone.node_id, Some(s("node4")));
        }
        _ => panic!("a kick was asked for"),
    }
}

#[test]
fn other_subnet_drains_the_routes() {
    let mut e = engine(three_peers());
    e.state.routing.update(&s("10.2.2.7"), local(7), Some(&s("node7")), 0);
    let cmd = EngineCmd::SetIdentity {
        is_owner: true,
        my_vip: s("10.2.2.1"),
        my_node_id: s("o"),
        subnet_prefix: 24,
    };
    match e.handle_cmd(cmd, 0) {
        CmdPlan::Drained(list) => {
            let names: Vec<&str> = list.iter().map(|g| g.vip.as_str()).collect();
            assert_eq!(names, vec!["10.1.1.3", "10.1.1.4", "10.1.1.5"]);
            assert_eq!(list[1].node_id, Some(s("node4")));
        }
        _ => panic!("routes were to be drained"),
    }
    assert_eq!(e.state.routing.lookup(&s("10.2.2.7")), Some(local(7)));
}

#[test]
fn membership_events_go_to_live_peers() {
    let mut e = engine(three_peers());
    set_state(&mut e.state.routing, "10.1.1.4", RouteState::Stale);
    match e.handle_cmd(EngineCmd::BroadcastMsmd, 0) {
        CmdPlan::Tell(list) => assert_eq!(list, vec![local(3), local(5)]),
        _ => panic!("peers were to be told"),
    }
}

#[test]
fn stopped_discovery_leaves_a_join_alone() {
    let mut e = engine(peer_engine());
    e.handle_cmd(EngineCmd::SetJoinSender, 0);
    match e.handle_cmd(EngineCmd::StopDecentralized, 0) {
        CmdPlan::StopDiscovery { was_waiting } => assert!(!was_waiting),
        _ => panic!("discovery was to stop"),
    }
    assert!(e.state.join_waiting);
    match e.handle_cmd(EngineCmd::CancelJoinWait, 0) {
        CmdPlan::StopDiscovery { was_waiting } => assert!(was_waiting),
        _ => panic!("discovery was to stop"),
    }
    assert!(!e.state.join_waiting);
}

fn searching_engine() -> Engine {
    let mut e = engine(peer_engine());
    for key in [
        "decentralized",
        "decentralized-join-overlay",
        "decentralized-reconnect-fastpath",
        "peer-reconnect:10.1.1.5",
        "mine",
    ] {
        let bases = vec![local(1)];
        e.handle_cmd(EngineCmd::StartPunchWorkflow { key: s(key), bases }, 0);
    }
    assert!(e.punches.begin_peer_reconnect(&s("10.1.1.6"), 1, 5));
    assert!(e.punches.fastpath.try_candidate(local(2), 5));
    e.punches.join_overlay_last_peers.insert(local(3), ());
    assert_eq!(e.punches.running.len(), 6);
    e
}

#[test]
fn a_search_takes_its_punches_along() {
    for cmd in [EngineCmd::StopDecentralized, EngineCmd::CancelJoinWait] {
        let mut e = searching_engine();
        e.handle_cmd(cmd, 10);
        assert_eq!(e.punches.running.len(), 1);
        assert!(e.punches.running.contains(&s("mine")));
        assert!(e.punches.began.is_empty());
        assert!(e.punches.join_overlay_last_peers.is_empty());
        assert_eq!((e.punches.fastpath.last_ep, e.punches.fastpath.last_at), (None, None));
    }
    let mut e = searching_engine();
    e.handle_cmd(EngineCmd::StartDecentralized { node_id: s("") }, 10);
    assert_eq!(e.punches.running.len(), 4);
    assert!(!e.punches.running.contains(&s("decentralized")));
    assert!(!e.punches.running.contains(&s("decentralized-reconnect-fastpath")));
    assert_eq!(e.punches.fastpath.last_ep, None);
    assert_eq!(e.punches.began.get(&s("10.1.1.6")), Some(&5));
    assert!(e.punches.join_overlay_last_peers.contains_key(&local(3)));
    let mut e = searching_engine();
    e.punches.on_join_wait_finished();
    assert_eq!(e.punches.running.len(), 4);
    assert!(!e.punches.running.contains(&s("decentralized-join-overlay")));
    assert!(e.punches.join_overlay_last_peers.is_empty());
    assert_eq!(e.punches.fastpath.last_ep, Some(local(2)));
    e.handle_cmd(EngineCmd::ResetSession, 10);
    assert!(e.punches.running.is_empty());
    assert!(e.punches.began.is_empty());
    let mut e = searching_engine();
    assert!(matches!(e.handle_cmd(EngineCmd::Shutdown, 10), CmdPlan::Stop));
    assert!(e.punches.running.is_empty());
    assert_eq!(e.punches.began.get(&s("10.1.1.6")), Some(&5));
}

#[test]
fn keys_join_the_extra_keys_once() {
    let mut e = engine(peer_engine());
    e.handle_cmd(EngineCmd::SetCryptoKey(key(1)), 0);
    e.handle_cmd(EngineCmd::AddCryptoKey(key(2)), 0);
    e.handle_cmd(EngineCmd::AddCryptoKey(key(2)), 0);
    assert_eq!(e.state.crypto_keys.extras_len(), 2);
    e.handle_cmd(EngineCmd::BindPeerKey { peer: local(9), key: key(2) }, 0);
    assert_eq!(e.state.crypto_keys.extras_len(), 2);
    assert_eq!(e.state.crypto_keys.key_for_peer(local(9)).unwrap().key.bytes, [2; 32]);
}

#[test]
fn sync_tells_where_routes_led_before() {
    let mut eng = peer_engine();
    eng.routing.update(&s("10.1.1.5"), local(5), Some(&s("five")), 0);
    eng.routing.update(&s("10.1.1.6"), local(6), Some(&s("six")), 0);
    let routes = vec![MsynRoute {
        vip: Some(s("10.1.1.5")),
        ep: Some(Endpoint { ip: IpAddr::V4(v4(9, 9, 9, 9)), port: 50 }),
        node_id: Some(s("five")),
    }];
    let removed = vec![s("10.1.1.7")];
    match eng.apply_msyn_epoch(local(1), 0, 4, &removed, &routes, 10) {
        MsynApply::Applied(fx) => {
            assert_eq!(fx.removed.len(), 1);
            assert_eq!(fx.removed[0].ep, None);
            assert_eq!(fx.applied.len(), 1);
            assert_eq!(fx.applied[0].prev, Some(local(5)));
            assert_eq!(fx.phantoms.len(), 1);
            assert_eq!(fx.phantoms[0].ep, Some(local(6)));
            assert_eq!(fx.phantoms[0].gone.node_id, Some(s("six")));
        }
        _ => panic!("the sync was to be applied"),
    }
}

#[test]
fn peer_that_left_is_told_in_full() {
    let mut eng = three_peers();
    let ev = MsmdEvent {
        kind: MsmdKind::Leave,
        vip: s("10.1.1.5"),
        node_id: s("node5"),
        ep: None,
    };
    match eng.apply_msmd(&ev, 0) {
        MsmdOutcome::Left(Some(r)) => {
            assert_eq!(r.ep, Some(local(5)));
            assert_eq!(r.gone.node_id, Some(s("node5")));
        }
        _ => panic!("the peer was to leave"),
    }
}

#[test]
fn commands_that_build_messages() {
    let mut e = engine(peer_engine());
    let me = e.state.id.my_node_id.clone();
    let relay = EngineCmd::SendPeerRelay { relay_ep: local(5), dst_node: s("b"), kind: s("k") };
    match e.handle_cmd(relay, 0) {
        CmdPlan::Relay { to, msg } => {
            assert_eq!((to, msg.ttl), (local(5), 2));
            assert_eq!((msg.dst_node, msg.src_node, msg.kind), (s("b"), me, s("k")));
        }
        _ => panic!("no message"),
    }
    let target = local(6);
    let list = [
        (EngineCmd::ParaSendHello { target, payload: vec![1] }, ControlTag::ParaHello),
        (EngineCmd::ParaSendReply { target, payload: vec![1] }, ControlTag::ParaReply),
        (EngineCmd::ParaSendOk { target, payload: vec![1] }, ControlTag::ParaOk),
        (EngineCmd::ParaSendPunchAck { target, payload: vec![1] }, ControlTag::ParaPunchAck),
    ];
    for (cmd, want) in list {
        match e.handle_cmd(cmd, 0) {
            CmdPlan::Send { to, tag, body } => {
                assert_eq!((to, tag, body), (target, want, vec![1]));
            }
            _ => panic!("nothing sent"),
        }
    }
    assert!(matches!(
        e.handle_cmd(EngineCmd::ManualPunch { target, count: 3 }, 0),
        CmdPlan::Punch { count: 3, pause_ms: 50, .. }
    ));
}

#[test]
fn commands_that_set_the_pacer() {
    let mut e = engine(peer_engine());
    let apply = PaceClockApply::default();
    let cfg = PacingConfig { tick_us: 0, ..PacingEngine::new().config };
    let least = clamp_tick_us(0);
    assert!(least > 0);
    match e.handle_cmd(EngineCmd::SetPacing(cfg), 0) {
        CmdPlan::Pace { cfg: Some(c), tick_us, clock: None } => {
            assert_eq!((c.tick_us, tick_us), (least, least));
            assert_eq!(c.target_pps, cfg.target_pps);
        }
        _ => panic!("not set"),
    }
    match e.handle_cmd(EngineCmd::SetPacingAndPaceClock { cfg, apply }, 0) {
        CmdPlan::Pace { cfg: Some(c), tick_us, clock: Some(a) } => {
            assert_eq!((c.tick_us, tick_us, a), (least, least, apply));
        }
        _ => panic!("not set"),
    }
    match e.handle_cmd(EngineCmd::SetPaceClock { apply, tick_us: u64::MAX }, 0) {
        CmdPlan::Pace { cfg: None, tick_us, clock: Some(a) } => {
            assert_eq!((tick_us, a), (clamp_tick_us(u64::MAX), apply));
        }
        _ => panic!("not set"),
    }
    assert!(matches!(e.handle_cmd(EngineCmd::SetDrrEnabled(true), 0), CmdPlan::Drr(true)));
}

#[test]
fn commands_that_change_what_is_kept() {
    let mut e = engine(peer_engine());
    let way = IceCandidate { ip: s("192.0.2.1"), port: 5, kind: s("host") };
    assert!(matches!(e.handle_cmd(EngineCmd::SetCandidates(vec![way]), 0), CmdPlan::Done));
    assert_eq!(e.candidates.len(), 1);
    let knobs = FecKnobs {
        shard_payload_size: 1000,
        flush_ms: 5,
        flush_aggressive_ms: 2,
        frame_scratch_bytes: 64,
    };
    let tune = |max_total_shards, after| EngineCmd::ApplyAdvancedTuning {
        max_total_shards,
        before: knobs,
        after,
    };
    assert!(matches!(e.handle_cmd(tune(9, knobs), 0), CmdPlan::Tuned { retune: false }));
    assert_eq!(e.fec.max_total, 9);
    let other = FecKnobs { flush_ms: 6, ..knobs };
    assert!(matches!(e.handle_cmd(tune(8, other), 0), CmdPlan::Tuned { retune: true }));
    assert_eq!(e.fec.max_total, 8);
    assert!(matches!(e.handle_cmd(EngineCmd::ResetSession, 0), CmdPlan::Reset));
    assert!(e.candidates.is_empty());
}

#[test]
fn received_bytes_add_up() {
    let eng = peer_engine();
    let mut rx = RxBytes::new();
    assert!(rx.flush_rx_byte_counters(&eng).is_none());
    rx.note_rx_bytes(local(5), 100);
    rx.note_rx_bytes(local(5), u64::MAX);
    rx.note_rx_bytes(local(6), 7);
    rx.note_rx_bytes_for_dst(9, 30);
    rx.note_rx_bytes_for_dst(9, 12);
    let report = rx.flush_rx_byte_counters(&eng).unwrap();
    assert_eq!(report.from.get(&local(5)), Some(&u64::MAX));
    assert_eq!(report.from.get(&local(6)), Some(&7));
    assert_eq!(report.to.get(&9), Some(&42));
    assert_eq!(report.ignore_relay, eng.owner_send_endpoint());
    assert!(rx.flush_rx_byte_counters(&eng).is_none());
}
