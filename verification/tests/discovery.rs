use floatnet::addr::{Endpoint, IpAddr};
use floatnet::decentralized::{
    AnnounceInfo, DecentralizedState, HttpAnnounceResult, PendingKind, PendingOp, SearchStart,
    SlotAction, TrackerAnswer, TrackerEndpoint, TrackerScheme, TrackerSlot, TrackerUrl,
    DISCOVERED_TTL, MAX_ACTIVE_TRACKERS, MAX_DISCOVERED,
};
use floatnet::punch_targets::{
    build_random_residual_targets, build_symmetric_punch_targets, canonical_covered_after_stage2,
    canonical_stage2_targets, expand_intensity_symmetric, expand_symmetric_targets,
    invite_pre_punch_targets, join_wide_per_peer_width, residual_from_ports, HolePunchTuning,
    JOIN_OVERLAY_WIDE_MAX_WIDTH, JOIN_OVERLAY_WIDE_MIN_WIDTH, MAX_EXPANDED_PUNCH_TARGETS,
};
use floatnet::table::Table;

const NOW: u64 = 1_000_000;

fn ep(a: u8, b: u8, c: u8, d: u8, port: u16) -> Endpoint {
    Endpoint { ip: IpAddr::V4(u32::from_be_bytes([a, b, c, d])), port }
}

/// What the address of a tracker says.
fn url(text: &str) -> TrackerUrl {
    let (scheme, rest) = text.split_once("://").unwrap();
    let (host_port, path) = rest.split_once('/').unwrap_or((rest, ""));
    let scheme = match scheme {
        "udp" => TrackerScheme::Udp,
        "http" => TrackerScheme::Http,
        _ => TrackerScheme::Https,
    };
    let (host, port) = match host_port.split_once(':') {
        Some((h, p)) => (h, p.parse().unwrap()),
        None => (host_port, 80),
    };
    TrackerUrl {
        url: text.to_string(),
        endpoint: Some(TrackerEndpoint {
            scheme,
            host: host.to_string(),
            port,
            path: format!("/{path}"),
        }),
        lookup: Some(format!("{host}:{port}")),
    }
}

fn slot(text: &str) -> TrackerSlot {
    TrackerSlot::try_new(url(text), 180).unwrap()
}

fn request(room: u8, urls: Vec<TrackerUrl>, secs: u64, joiner: bool) -> SearchStart {
    SearchStart {
        room_id: [room; 20],
        peer_id: [9; 20],
        trackers: urls,
        announce_secs: secs,
        is_joiner: joiner,
        join_body: None,
        join_owner_hint: None,
        listen_port: 7878,
    }
}

fn searching() -> DecentralizedState {
    let mut d = DecentralizedState::default();
    d.active = true;
    d.listen_port = 7878;
    d
}

fn tick(d: &mut DecentralizedState, now: u64) -> Vec<Endpoint> {
    if !d.begin_tick(now) {
        return Vec::new();
    }
    for i in 0..d.slot_count() {
        let _ = d.tick_tracker_slot(i, 7878, now);
    }
    d.finish_tick(None, false, now).punch_targets
}

#[test]
fn announce_uses_public_port_when_known() {
    let mut d = DecentralizedState::default();
    d.listen_port = 7878;
    let public = ep(14, 241, 251, 119, 53958);
    assert_eq!(d.announce_port(Some(public)), 53958);
    assert_eq!(d.announce_port(None), 7878);
}

#[test]
fn pending_bounded_when_tracker_silent() {
    let tracker = ep(192, 0, 2, 1, 1337);
    let mut d = DecentralizedState::default();
    d.start(request(1, vec![url("udp://192.0.2.1:1337/announce")], 60, false));
    d.slots[0].addrs.push(tracker);
    for _ in 0..30 {
        let _ = tick(&mut d, NOW);
    }
    assert!(
        d.pending.len() <= d.slots.len() * 2,
        "pending must stay bounded, got {}",
        d.pending.len()
    );
    assert_eq!(d.pending.len(), 1);
}

#[test]
fn tick_emits_fresh_targets_each_call() {
    let mut d = searching();
    d.note_discovered(ep(10, 0, 0, 1, 4000), NOW);
    let out1 = tick(&mut d, NOW);
    assert!(!out1.is_empty());
    let out2 = tick(&mut d, NOW);
    assert!(!out2.is_empty());
}

#[test]
fn discovered_prunes_stale_and_caps() {
    let mut d = searching();
    let e = ep(1, 2, 3, 4, 4000);
    d.discovered.insert(e, NOW - DISCOVERED_TTL - 5_000);
    d.prune_discovered(NOW);
    assert!(!d.discovered.contains_key(&e));

    for i in 0..(MAX_DISCOVERED + 10) {
        d.note_discovered(ep(10, 0, 0, 1, 4000 + i as u16), NOW + i as u64);
    }
    d.prune_discovered(NOW + 300);
    assert!(d.discovered.len() <= MAX_DISCOVERED);
    assert_eq!(d.discovered.len(), MAX_DISCOVERED);
    assert!(!d.discovered.contains_key(&ep(10, 0, 0, 1, 4009)));
    assert!(d.discovered.contains_key(&ep(10, 0, 0, 1, 4010)));
}

#[test]
fn take_pending_resolves_all_empty_slots() {
    let mut d = searching();
    d.slots = vec![
        slot("udp://a.example.com:1337/announce"),
        slot("udp://b.example.com:80/announce"),
    ];
    let pending = d.take_pending_resolves();
    assert_eq!(pending.len(), 2);
    assert_eq!(pending[0].0, 0);
    assert_eq!(pending[0].1, "a.example.com:1337");
    assert_eq!(pending[1].0, 1);
    assert!(d.slots[0].resolve_in_flight);
    assert!(d.slots[1].resolve_in_flight);
    assert!(d.take_pending_resolves().is_empty());
    d.clear_resolve_in_flight(1);
    assert_eq!(d.take_pending_resolves().len(), 1);
}

#[test]
fn add_resolved_addrs_per_slot() {
    let mut d = DecentralizedState::default();
    d.slots = vec![
        slot("udp://a.example.com:1337/announce"),
        slot("udp://b.example.com:80/announce"),
    ];
    let a1 = ep(1, 1, 1, 1, 1337);
    let b1 = ep(2, 2, 2, 2, 80);
    d.add_resolved_addrs(0, vec![a1]);
    d.add_resolved_addrs(1, vec![b1]);
    assert_eq!(d.slots[0].addrs, vec![a1]);
    assert_eq!(d.slots[1].addrs, vec![b1]);
    d.add_resolved_addrs(1, vec![b1, Endpoint { ip: IpAddr::V6(1, 2), port: 3 }, a1]);
    assert_eq!(d.slots[1].addrs, vec![b1, a1]);
}

#[test]
fn announce_due_independent_per_slot() {
    let mut s0 = slot("udp://a.example.com:1337/announce");
    s0.server_interval_secs = 120;
    s0.last_announce = Some(NOW);
    let mut s1 = slot("udp://b.example.com:80/announce");
    s1.last_announce = None;
    assert!(!s0.announce_due(180, NOW));
    assert!(s1.announce_due(180, NOW));
    assert!(!s0.announce_due(180, NOW + 179_999));
    assert!(s0.announce_due(180, NOW + 180_000));
}

fn answer_bytes(txn: [u8; 4]) -> Vec<u8> {
    let mut data = vec![0u8; 20];
    data[4..8].copy_from_slice(&txn);
    data
}

fn announce(peers: &[Endpoint]) -> TrackerAnswer {
    TrackerAnswer { connection: None, announce: Some((180, peers.to_vec())) }
}

#[test]
fn handle_datagram_announce_unions_discovered() {
    let mut d = searching();
    let tracker = ep(9, 9, 9, 9, 1337);
    d.slots = vec![slot("udp://9.9.9.9:1337/announce")];
    d.slots[0].addrs.push(tracker);
    d.pending.insert(
        0x0102_0304,
        PendingOp { kind: PendingKind::Announce, tracker, created: NOW },
    );
    let data = answer_bytes([1, 2, 3, 4]);
    let peers = [ep(10, 0, 0, 1, 7878), ep(10, 0, 0, 2, 7879)];
    assert!(!d.handle_datagram(ep(8, 8, 8, 8, 1), &data, announce(&peers), NOW).handled);
    assert!(d.handle_datagram(tracker, &data, announce(&peers), NOW).handled);
    assert_eq!(d.discovered.len(), 2);
    let result = d.handle_datagram(tracker, &data, announce(&peers), NOW);
    assert!(!result.handled);
}

#[test]
fn handle_datagram_announce_emits_event() {
    let mut d = searching();
    d.is_joiner = true;
    let tracker = ep(9, 9, 9, 9, 1337);
    d.slots = vec![slot("udp://tracker.example.com:1337/announce")];
    d.slots[0].addrs.push(tracker);
    d.pending.insert(
        0x0102_0304,
        PendingOp { kind: PendingKind::Announce, tracker, created: NOW },
    );
    let data = answer_bytes([1, 2, 3, 4]);
    let result = d.handle_datagram(tracker, &data, announce(&[ep(10, 0, 0, 1, 7878)]), NOW);
    assert!(result.handled);
    let event = result.event.expect("tracker event");
    assert_eq!(event.tracker_url, "udp://tracker.example.com:1337/announce");
    let info: AnnounceInfo = event.announce.expect("announce info");
    assert!(info.first_announce_in_join);
    assert_eq!(info.peers.len(), 1);
    assert_eq!(d.slots[0].last_announce, Some(NOW));
}

#[test]
fn trackers_are_connected_to_and_then_asked() {
    let tracker = ep(9, 9, 9, 9, 1337);
    let mut d = searching();
    d.slots = vec![slot("udp://9.9.9.9:1337/announce")];
    d.slots[0].addrs.push(tracker);
    assert_eq!(
        d.ask_tracker(0, 7, 77, NOW),
        SlotAction::SendConnect { to: tracker, txn: 77 }
    );
    assert_eq!(d.ask_tracker(0, 7, 78, NOW), SlotAction::Idle);
    let answer = TrackerAnswer { connection: Some(5), announce: None };
    let got = d.handle_datagram(tracker, &answer_bytes([0, 0, 0, 77]), answer, NOW);
    assert!(got.handled);
    assert!(got.event.unwrap().announce.is_none());
    let asked = d.ask_tracker(0, 7, 79, NOW);
    assert_eq!(
        asked,
        SlotAction::SendAnnounce { to: tracker, txn: 79, connection: 5, announce_port: 7 }
    );
    d.slot_send_failed(0, asked);
    assert!(d.pending.is_empty());
    assert!(d.connections.is_empty());
    assert_eq!(
        d.ask_tracker(0, 7, 80, NOW),
        SlotAction::SendConnect { to: tracker, txn: 80 }
    );
    assert!(d.begin_tick(NOW + 20_000));
    assert!(d.pending.is_empty());
    assert_eq!(d.ask_tracker(1, 7, 80, NOW), SlotAction::Idle);
}

#[test]
fn questions_get_numbers_by_chance() {
    let mut seen = Vec::new();
    for _ in 0..8 {
        let mut d = searching();
        d.slots = vec![slot("udp://9.9.9.9:1337/announce")];
        d.slots[0].addrs.push(ep(9, 9, 9, 9, 1337));
        if let SlotAction::SendConnect { txn, .. } = d.tick_tracker_slot(0, 7, NOW) {
            seen.push(txn);
        }
    }
    assert_eq!(seen.len(), 8);
    assert!(seen.iter().any(|t| *t != seen[0]));
}

#[test]
fn canonical_stage2_targets_single_peer_width() {
    let punch = HolePunchTuning::default();
    let base = ep(127, 0, 0, 1, 50_000);
    let stage2 = canonical_stage2_targets(&vec![base], &punch);
    assert!(stage2.len() <= MAX_EXPANDED_PUNCH_TARGETS);
    assert!(stage2.contains(&base));
}

#[test]
fn canonical_covered_unions_stage2() {
    let punch = HolePunchTuning::default();
    let base = ep(127, 0, 0, 1, 50_000);
    let stage2 = canonical_stage2_targets(&vec![base], &punch);
    let covered = canonical_covered_after_stage2(&vec![base], &stage2);
    assert!(covered.len() >= stage2.len());
}

#[test]
fn join_wide_per_peer_width_clamps() {
    assert_eq!(
        join_wide_per_peer_width(
            1,
            MAX_EXPANDED_PUNCH_TARGETS,
            JOIN_OVERLAY_WIDE_MIN_WIDTH,
            JOIN_OVERLAY_WIDE_MAX_WIDTH
        ),
        256
    );
    assert_eq!(
        join_wide_per_peer_width(
            4,
            MAX_EXPANDED_PUNCH_TARGETS,
            JOIN_OVERLAY_WIDE_MIN_WIDTH,
            JOIN_OVERLAY_WIDE_MAX_WIDTH
        ),
        128
    );
    assert_eq!(
        join_wide_per_peer_width(
            32,
            MAX_EXPANDED_PUNCH_TARGETS,
            JOIN_OVERLAY_WIDE_MIN_WIDTH,
            JOIN_OVERLAY_WIDE_MAX_WIDTH
        ),
        32
    );
    assert_eq!(join_wide_per_peer_width(0, 0, 0, 0), 1);
}

#[test]
fn expand_intensity_respects_budget() {
    let bases: Vec<Endpoint> = (0..16u8).map(|i| ep(i, 0, 0, 1, 4000)).collect();
    let width = join_wide_per_peer_width(
        16,
        MAX_EXPANDED_PUNCH_TARGETS,
        JOIN_OVERLAY_WIDE_MIN_WIDTH,
        JOIN_OVERLAY_WIDE_MAX_WIDTH,
    );
    let expanded = expand_intensity_symmetric(&bases, width, 512);
    assert!(expanded.len() <= 512);
}

#[test]
fn ports_near_the_known_one_are_tried() {
    let ip = IpAddr::V4(5);
    let ports = |port, width| -> Vec<u16> {
        build_symmetric_punch_targets(ip, port, width).iter().map(|e| e.port).collect()
    };
    assert_eq!(ports(100, 4), vec![98, 99, 100, 101]);
    assert_eq!(ports(2, 6), vec![1, 2, 3, 4, 5, 6]);
    assert_eq!(ports(65_535, 4), vec![65_533, 65_534, 65_535]);
    assert_eq!(ports(7, 0), vec![7]);
    let near = invite_pre_punch_targets(Endpoint { ip, port: 1_000 }, 5);
    let near: Vec<u16> = near.iter().map(|e| e.port).collect();
    assert_eq!(near, vec![1_000, 872, 873, 874, 875]);
    let one = expand_intensity_symmetric(&vec![Endpoint { ip, port: 9 }], 4, 0);
    assert_eq!(one.len(), 1);
}

#[test]
fn random_residual_excludes_covered() {
    let base = ep(10, 0, 0, 1, 4000);
    let mut covered: Table<Endpoint, ()> = Table::new();
    for e in expand_intensity_symmetric(&vec![base], 64, 512) {
        covered.insert(e, ());
    }
    let residual = build_random_residual_targets(&vec![base], &covered, 64, 1024, 65535);
    assert!(residual.len() <= 64);
    for e in &residual {
        assert!(!covered.contains_key(e));
        assert!(e.port >= 1024);
    }
    let again = build_random_residual_targets(&vec![base], &covered, 64, 65535, 1024);
    assert_ne!(residual, again);
    assert!(build_random_residual_targets(&vec![], &covered, 64, 1, 2).is_empty());
}

#[test]
fn drawn_ports_take_turns_on_the_hosts() {
    let bases = vec![ep(2, 0, 0, 1, 4), ep(1, 0, 0, 1, 5), ep(2, 0, 0, 1, 6)];
    let mut covered: Table<Endpoint, ()> = Table::new();
    covered.insert(ep(1, 0, 0, 1, 30), ());
    let out = residual_from_ports(&bases, &covered, 2, &vec![10, 10, 30, 10, 40]);
    assert_eq!(out, vec![ep(1, 0, 0, 1, 10), ep(2, 0, 0, 1, 10)]);
    let out = residual_from_ports(&bases, &covered, 9, &vec![30, 10, 10, 10, 40]);
    assert_eq!(out, vec![ep(2, 0, 0, 1, 10), ep(1, 0, 0, 1, 10), ep(1, 0, 0, 1, 40)]);
}

#[test]
fn expand_exact_first_all_base_before_cap() {
    let mut bases = Vec::new();
    for i in 0..80u8 {
        bases.push(ep(i, 0, 0, 1, 4000));
    }
    let cap = 512usize;
    let expanded = expand_symmetric_targets(&bases, None, cap);
    for e in &bases {
        assert!(
            expanded.contains(e),
            "exact endpoint {e:?} must appear before symmetric expansion fills cap"
        );
    }
    assert_eq!(expanded.len(), cap);
    assert_eq!(expanded[..80], bases[..]);
}

#[test]
fn start_clamps_tracker_count() {
    let mut d = DecentralizedState::default();
    let mut urls: Vec<TrackerUrl> =
        (0..40).map(|i| url(&format!("udp://t{i}.example.com:1337/announce"))).collect();
    urls[0].endpoint = None;
    d.start(request(0, urls, 180, false));
    assert_eq!(d.slots.len(), MAX_ACTIVE_TRACKERS);
    assert_eq!(d.slots[0].host, "t1.example.com");
}

#[test]
fn reconnect_tick_includes_newly_discovered_endpoint() {
    let mut d = searching();
    d.note_discovered(ep(10, 0, 0, 1, 5000), NOW);
    let targets = d.join_punch_base_targets(None, NOW);
    d.note_discovered(ep(10, 0, 0, 1, 5001), NOW + 1);
    let expanded =
        expand_symmetric_targets(&d.join_punch_base_targets(None, NOW + 1), None, 512);
    let new_ep = ep(10, 0, 0, 1, 5001);
    assert!(targets.contains(&ep(10, 0, 0, 1, 5000)));
    assert!(expanded.contains(&new_ep));
}

#[test]
fn targets_are_newest_first_and_never_the_own() {
    let mut d = searching();
    d.join_owner_hint = Some(ep(7, 7, 7, 7, 7));
    d.note_discovered(ep(10, 0, 0, 1, 1), NOW);
    d.note_discovered(ep(10, 0, 0, 1, 2), NOW + 2);
    d.note_discovered(ep(10, 0, 0, 1, 3), NOW + 1);
    let got = d.join_punch_base_targets(Some(ep(10, 0, 0, 1, 3)), NOW + 2);
    assert_eq!(got, vec![ep(10, 0, 0, 1, 2), ep(10, 0, 0, 1, 1), ep(7, 7, 7, 7, 7)]);
    let mut known = d.discovered_endpoints();
    known.sort_by_key(|e| e.port);
    assert_eq!(known.len(), 3);
    assert_eq!(known[0], ep(10, 0, 0, 1, 1));
}

#[test]
fn join_requests_go_to_the_owner_first() {
    let mut d = searching();
    d.is_joiner = true;
    d.join_body = Some(vec![1, 2, 3]);
    let owner = ep(7, 7, 7, 7, 7);
    d.join_owner_hint = Some(owner);
    for i in 0..20 {
        d.note_discovered(ep(10, 0, 0, 1, i), NOW);
    }
    let out = d.finish_tick(None, true, NOW);
    assert_eq!(out.join_fanout.len(), 8);
    assert_eq!(out.join_fanout[0], (owner, vec![1, 2, 3]));
    assert!(d.finish_tick(None, false, NOW).join_fanout.is_empty());
    d.set_joiner_active(false);
    assert!(!d.is_joiner());
    assert!(d.finish_tick(None, true, NOW).join_fanout.is_empty());
}

#[test]
fn http_announce_merges_discovered_and_emits_event() {
    let mut d = DecentralizedState::default();
    d.start(request(3, vec![url("http://tracker.example.com:8080/announce")], 60, true));
    assert_eq!(d.slots.len(), 1);
    assert!(d.slots[0].is_http());

    let work = d.take_pending_http_announces(53958, NOW);
    assert_eq!(work.len(), 1);
    assert_eq!(work[0].announce_port, 53958);
    assert_eq!(work[0].room_id, [3; 20]);
    assert_eq!(work[0].path, "/announce");
    assert!(d.slots[0].http_in_flight);
    assert!(d.take_pending_http_announces(53958, NOW).is_empty());

    let peer = ep(198, 51, 100, 9, 9000);
    let event = d
        .apply_http_announce_result(
            HttpAnnounceResult {
                slot_idx: 0,
                generation: work[0].generation,
                tracker_url: work[0].tracker_url.clone(),
                outcome: Ok((180, vec![peer])),
            },
            NOW,
        )
        .expect("event");
    assert!(!d.slots[0].http_in_flight);
    assert!(d.discovered.contains_key(&peer));
    let info = event.announce.expect("announce");
    assert!(info.first_announce_in_join);
    assert_eq!(info.peers, vec![peer]);
}

#[test]
fn http_announce_result_ignored_after_stop() {
    let mut d = DecentralizedState::default();
    d.start(request(3, vec![url("http://tracker.example.com/announce")], 60, false));
    let work = d.take_pending_http_announces(7878, NOW);
    assert_eq!(work.len(), 1);
    let gen = work[0].generation;
    d.stop();
    let result = || HttpAnnounceResult {
        slot_idx: 0,
        generation: gen,
        tracker_url: work[0].tracker_url.clone(),
        outcome: Ok((120, vec![ep(1, 2, 3, 4, 5)])),
    };
    assert!(d.apply_http_announce_result(result(), NOW).is_none());
    assert!(d.discovered.is_empty());
    d.start(request(3, vec![url("http://tracker.example.com/announce")], 60, false));
    assert_ne!(d.generation(), gen);
    assert!(d.apply_http_announce_result(result(), NOW).is_none());
}

#[test]
fn http_requests_have_a_limit() {
    let mut d = DecentralizedState::default();
    let urls = (0..6).map(|i| url(&format!("http://t{i}.example.com/announce"))).collect();
    d.start(request(3, urls, 60, false));
    assert_eq!(d.take_pending_http_announces(7878, NOW).len(), 4);
    assert!(d.take_pending_http_announces(7878, NOW + 19_999).is_empty());
    assert_eq!(d.take_pending_http_announces(7878, NOW + 20_000).len(), 4);
    let failed = HttpAnnounceResult {
        slot_idx: 0,
        generation: d.generation(),
        tracker_url: String::new(),
        outcome: Err("refused".to_string()),
    };
    assert!(d.apply_http_announce_result(failed, NOW + 20_001).is_none());
    assert!(!d.slots[0].http_in_flight);
}

#[test]
fn https_slots_are_kept_but_not_announced() {
    let mut d = DecentralizedState::default();
    d.start(request(
        1,
        vec![
            url("https://secure.example.com/announce"),
            url("udp://udp.example.com:1337/announce"),
        ],
        60,
        false,
    ));
    assert!(d.is_active());
    assert_eq!(d.slots.len(), 2);
    assert!(d.take_pending_http_announces(7878, NOW).is_empty());
    assert_eq!(d.take_pending_resolves().len(), 1);
}

#[test]
fn take_pending_resolves_skips_http_slots() {
    let mut d = searching();
    d.slots = vec![
        slot("http://h.example.com/announce"),
        slot("udp://u.example.com:1337/announce"),
    ];
    let pending = d.take_pending_resolves();
    assert_eq!(pending.len(), 1);
    assert_eq!(pending[0].0, 1);
}
