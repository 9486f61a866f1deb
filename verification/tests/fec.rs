use floatnet::addr::{Endpoint, IpAddr};
use floatnet::fec::{
    classify_packet, FecEncoder, FecOutput, FlushPolicy, FEC_FLUSH_TIMEOUT,
    FEC_FLUSH_TIMEOUT_AGGRESSIVE,
};
use floatnet::fec_codec::{build_fec_packet, shard_packet, FrameHead};
use floatnet::fec_decoder::{FecDecoder, FEC_GROUP_TTL};
use floatnet::fec_ratio::{
    apply_fec_loss_classifier, apply_fec_recovery_stepdown, effective_shard_payload_size,
    fec_ratio_hysteresis, fec_ratio_is_strictly_lower, fec_ratio_step_down,
    fec_ratio_would_increase_parity, FecRoute, FecSendInput, FecSendState, FEC_COMPACT_HEADER_LEN,
    FEC_RECOVERY_RECENCY, FEC_SHARD_PAYLOAD_MIN, FEC_SHARD_PAYLOAD_SIZE,
    UNDERLAY_IPV4_UDP_OVERHEAD,
};
use floatnet::fec_tx_worker::{
    batch_answered, dispatch_output, request_flush_due, FecTxControl, FecTxEvent, FecTxTuning,
    NormalOfferKind, QueueLens, WorkerState,
};
use floatnet::table::Table;
use rand::Rng;

/// The length of a packet that waits for others.
const FEC_BUFFER_TEST_LEN: usize = 300;

/// The first byte of a frame with a shard.
const FRAME: u8 = 7;

const NOW: u64 = 10_000_000;

fn encoder(data: u8, parity: u8) -> FecEncoder {
    FecEncoder::new(FRAME, data, parity)
}

fn decoder() -> FecDecoder {
    FecDecoder::new(FRAME, NOW)
}

fn frame(group_id: u32, shard_idx: u8, data_shards: u8, parity_shards: u8, shard: &[u8]) -> Vec<u8> {
    build_fec_packet(
        FRAME,
        FrameHead { group_id, shard_idx, data_shards, parity_shards },
        &shard.to_vec(),
    )
}

#[test]
fn fec_loss_classifier_holds_increase_when_congested() {
    let proposed = (5, 1);
    let prev = Some((10, 1));
    let (held, ratio) = apply_fec_loss_classifier(proposed, prev, true, true);
    assert!(held);
    assert_eq!(ratio, prev.unwrap());
}

#[test]
fn fec_loss_classifier_allows_increase_when_delay_low() {
    let proposed = (5, 1);
    let prev = Some((10, 1));
    let (held, ratio) = apply_fec_loss_classifier(proposed, prev, true, false);
    assert!(!held);
    assert_eq!(ratio, proposed);
}

#[test]
fn fec_loss_classifier_allows_decrease_when_congested() {
    let proposed = (0, 0);
    let prev = Some((7, 1));
    let (held, ratio) = apply_fec_loss_classifier(proposed, prev, true, true);
    assert!(!held);
    assert_eq!(ratio, (0, 0));
}

#[test]
fn fec_loss_classifier_off_is_noop() {
    let proposed = (4, 2);
    let (held, ratio) = apply_fec_loss_classifier(proposed, None, false, true);
    assert!(!held);
    assert_eq!(ratio, proposed);
}

#[test]
fn fec_ratio_step_down_follows_ladder() {
    assert_eq!(fec_ratio_step_down((4, 2)), (5, 1));
    assert_eq!(fec_ratio_step_down((5, 1)), (7, 1));
    assert_eq!(fec_ratio_step_down((7, 1)), (10, 1));
    assert_eq!(fec_ratio_step_down((10, 1)), (0, 0));
    assert_eq!(fec_ratio_step_down((0, 0)), (0, 0));
}

#[test]
fn ratios_are_told_apart() {
    assert!(fec_ratio_would_increase_parity(Some((10, 1)), (5, 1)));
    assert!(!fec_ratio_would_increase_parity(Some((5, 1)), (10, 1)));
    assert!(fec_ratio_is_strictly_lower((10, 1), (5, 1)));
    assert!(!fec_ratio_is_strictly_lower((5, 1), (5, 1)));
    assert_eq!(fec_ratio_hysteresis(Some((5, 1)), true, true, (5, 1), (10, 1)), (0, 0));
}

#[test]
fn fec_recovery_stepdown_after_congestion() {
    let (stepped, ratio) = apply_fec_recovery_stepdown(
        (4, 2),
        Some((4, 2)),
        true,
        false,
        Some(NOW - 500),
        NOW,
        FEC_RECOVERY_RECENCY,
    );
    assert!(stepped);
    assert_eq!(ratio, (5, 1));
}

#[test]
fn fec_recovery_stepdown_skips_without_recency() {
    let (stepped, ratio) = apply_fec_recovery_stepdown(
        (4, 2),
        Some((4, 2)),
        true,
        false,
        None,
        NOW,
        FEC_RECOVERY_RECENCY,
    );
    assert!(!stepped);
    assert_eq!(ratio, (4, 2));
}

#[test]
fn fec_recovery_stepdown_skips_when_recency_expired() {
    let (stepped, ratio) = apply_fec_recovery_stepdown(
        (4, 2),
        Some((4, 2)),
        true,
        false,
        Some(NOW - FEC_RECOVERY_RECENCY - 1),
        NOW,
        FEC_RECOVERY_RECENCY,
    );
    assert!(!stepped);
    assert_eq!(ratio, (4, 2));
}

#[test]
fn fec_recovery_stepdown_skips_while_still_congested() {
    let (stepped, ratio) = apply_fec_recovery_stepdown(
        (4, 2),
        Some((4, 2)),
        true,
        true,
        Some(NOW),
        NOW,
        FEC_RECOVERY_RECENCY,
    );
    assert!(!stepped);
    assert_eq!(ratio, (4, 2));
}

#[test]
fn fec_recovery_stepdown_keeps_natural_decrease() {
    let proposed = (10, 1);
    let (stepped, ratio) = apply_fec_recovery_stepdown(
        proposed,
        Some((4, 2)),
        true,
        false,
        Some(NOW - 100),
        NOW,
        FEC_RECOVERY_RECENCY,
    );
    assert!(!stepped);
    assert_eq!(ratio, proposed);
}

#[test]
fn fec_recovery_stepdown_off_with_classifier_disabled() {
    let (stepped, ratio) = apply_fec_recovery_stepdown(
        (4, 2),
        Some((4, 2)),
        false,
        false,
        Some(NOW),
        NOW,
        FEC_RECOVERY_RECENCY,
    );
    assert!(!stepped);
    assert_eq!(ratio, (4, 2));
}

#[test]
fn fec_recovery_stepdown_off_when_recency_zero() {
    let (stepped, ratio) =
        apply_fec_recovery_stepdown((4, 2), Some((4, 2)), true, false, Some(NOW), NOW, 0);
    assert!(!stepped);
    assert_eq!(ratio, (4, 2));
}

#[test]
fn fec_recovery_ignores_random_loss_without_congestion_history() {
    let proposed = (4, 2);
    let (stepped, ratio) = apply_fec_recovery_stepdown(
        proposed,
        Some((4, 2)),
        true,
        false,
        None,
        NOW,
        FEC_RECOVERY_RECENCY,
    );
    assert!(!stepped);
    assert_eq!(ratio, proposed);
}

fn send_input(now: u64, adaptive: (u8, u8)) -> FecSendInput {
    FecSendInput {
        enabled: true,
        now,
        len: 300,
        shard_payload_size: FEC_SHARD_PAYLOAD_SIZE,
        effective: Some(FEC_SHARD_PAYLOAD_SIZE),
        forced: None,
        adaptive,
        classifier_enabled: false,
        congestive: false,
        recovery_recency_ms: FEC_RECOVERY_RECENCY,
        max_total_shards: 64,
    }
}

#[test]
fn packets_are_coded_where_that_is_on() {
    let mut st = FecSendState::new();
    let plan = st.fec_send(&send_input(0, (5, 1)));
    assert!(matches!(plan.route, FecRoute::Code { data: 5, parity: 1 }));
    let off = st.fec_send(&FecSendInput { enabled: false, ..send_input(0, (5, 1)) });
    assert!(matches!(off.route, FecRoute::Normal));
    let mut st = FecSendState::new();
    let small = st.fec_send(&FecSendInput { effective: None, ..send_input(0, (5, 1)) });
    assert!(matches!(small.route, FecRoute::MtuBypass));
    let mut st = FecSendState::new();
    let big = st.fec_send(&FecSendInput { len: 5_000, ..send_input(0, (5, 1)) });
    assert!(matches!(big.route, FecRoute::OversizeBypass));
}

#[test]
fn any_ratio_can_be_forced() {
    let mut st = FecSendState::new();
    let forced = |r, max| FecSendInput {
        forced: Some(r),
        max_total_shards: max,
        classifier_enabled: true,
        ..send_input(0, (5, 1))
    };
    let plan = st.fec_send(&forced((200, 100), 300));
    assert!(matches!(plan.route, FecRoute::Code { data: 200, parity: 100 }));
    let plan = st.fec_send(&forced((200, 100), 299));
    assert!(matches!(plan.route, FecRoute::Normal));
    assert_eq!(st.ratio_last, Some((200, 100)));
    let back = st.fec_send(&FecSendInput { congestive: true, ..send_input(10_000, (4, 2)) });
    assert!(matches!(back.route, FecRoute::Code { data: 4, parity: 2 }));
}

#[test]
fn ratios_change_rarely() {
    let mut st = FecSendState::new();
    let _ = st.fec_send(&send_input(0, (5, 1)));
    let soon = st.fec_send(&send_input(100, (4, 2)));
    assert!(matches!(soon.route, FecRoute::Code { data: 5, parity: 1 }));
    let later = st.fec_send(&send_input(10_000, (4, 2)));
    assert!(matches!(later.route, FecRoute::Code { data: 4, parity: 2 }));
}

#[test]
fn encode_decode_recovers_one_missing_shard() {
    let mut enc = encoder(4, 1);
    let mut out = Vec::new();
    let expected: Vec<Vec<u8>> = (0..4).map(|i| vec![i as u8; FEC_BUFFER_TEST_LEN]).collect();
    for i in 0..4 {
        if let Some(pkts) = enc.push(expected[i].clone(), NOW) {
            out = pkts;
        }
    }
    assert_eq!(out.len(), 5);
    let mut dec = decoder();
    let mut recovered = Vec::new();
    let mut total_missing = 0u16;
    for (idx, pkt) in out.into_iter().enumerate() {
        if idx == 1 {
            continue;
        }
        let r = dec.push_shard(&pkt, NOW);
        total_missing = total_missing.saturating_add(r.shards_missing);
        if !r.recovered.is_empty() {
            recovered = r.recovered;
        }
    }
    assert_eq!(recovered, expected);
    // One shard was lost on the way.
    assert_eq!(total_missing, 1);
}

#[test]
fn encode_decode_recovers_two_missing_data_shards() {
    let mut enc = encoder(4, 2);
    let mut out = Vec::new();
    let expected: Vec<Vec<u8>> = (0..4).map(|i| vec![i as u8; FEC_BUFFER_TEST_LEN]).collect();
    for p in &expected {
        if let Some(pkts) = enc.push(p.clone(), NOW) {
            out = pkts;
        }
    }
    assert_eq!(out.len(), 6);
    let mut dec = decoder();
    let mut recovered = Vec::new();
    let mut total_missing = 0u16;
    for (idx, pkt) in out.into_iter().enumerate() {
        if idx == 1 || idx == 3 {
            continue;
        }
        let r = dec.push_shard(&pkt, NOW);
        total_missing = total_missing.saturating_add(r.shards_missing);
        if !r.recovered.is_empty() {
            recovered = r.recovered;
        }
    }
    assert_eq!(recovered, expected);
    assert_eq!(total_missing, 2);
}

#[test]
fn decoder_full_group_reports_zero_missing() {
    let mut enc = encoder(4, 1);
    let mut out = Vec::new();
    for i in 0..4 {
        if let Some(pkts) = enc.push(vec![i as u8; FEC_BUFFER_TEST_LEN], NOW) {
            out = pkts;
        }
    }
    assert_eq!(out.len(), 5);
    let mut dec = decoder();
    let mut close_missing = None;
    let mut new_shards = 0u32;
    for pkt in out {
        let r = dec.push_shard(&pkt, NOW);
        new_shards += u32::from(r.shards_new);
        if !r.recovered.is_empty() {
            close_missing = Some(r.shards_missing);
        }
    }
    // What comes after all data is there is not counted, and not lost.
    assert!(new_shards >= 4, "expected at least all data shards counted");
    assert_eq!(close_missing, Some(0));
}

#[test]
fn decoder_evict_counts_missing_shards() {
    let mut dec = decoder();
    // Of six shards one came: five are missing when the group is given up.
    let p = frame(9, 0, 5, 1, &[16u8, 0, 3, 3, 3, 3, 3, 3, 3, 3, 3, 3, 3, 3, 3, 3]);
    let r = dec.push_shard(&p, NOW);
    assert!(!r.invalid);
    assert_eq!(r.shards_new, 1);
    assert!(!dec.is_empty());
    for group in dec.groups.entries.iter_mut() {
        group.1.created_at = NOW - 1_000_000;
    }
    let missing = dec.evict_expired(NOW);
    assert_eq!(missing, 5);
    assert!(dec.is_empty());
}

#[test]
fn groups_are_given_up_in_time() {
    let mut dec = decoder();
    let p = frame(9, 0, 5, 1, &[16u8, 0, 3, 3, 3, 3, 3, 3, 3, 3, 3, 3, 3, 3, 3, 3]);
    dec.push_shard(&p, NOW);
    assert_eq!(dec.evict_expired(NOW + FEC_GROUP_TTL - 1), 0);
    assert_eq!(dec.group_count(), 1);
    assert_eq!(dec.evict_expired(NOW + FEC_GROUP_TTL + 100_000), 5);
    assert_eq!(dec.group_count(), 0);
}

#[test]
fn interactive_single_packet_flushes_immediately() {
    let mut enc = encoder(4, 1);
    match enc.push_output(vec![1u8; 100], None, NOW) {
        FecOutput::Passthrough(v) => assert_eq!(v.len(), 1),
        FecOutput::Encoded(_) => {}
        FecOutput::Buffered => panic!("interactive packet must not buffer"),
    }
    assert!(enc.shard_buf.is_empty());
}

#[test]
fn packets_are_classified_by_length() {
    assert_eq!(classify_packet(255), FlushPolicy::Immediate);
    assert_eq!(classify_packet(256), FlushPolicy::Aggressive);
    assert_eq!(classify_packet(799), FlushPolicy::Aggressive);
    assert_eq!(classify_packet(800), FlushPolicy::Standard);
}

#[test]
fn aggressive_packet_flush_timeout_1ms() {
    let mut enc = encoder(4, 1);
    assert!(matches!(enc.push_output(vec![2u8; 300], None, NOW), FecOutput::Buffered));
    assert!(!enc.needs_flush(NOW));
    assert!(enc.needs_flush(NOW + 2_000));
}

#[test]
fn standard_packet_keeps_2ms_flush() {
    let mut enc = encoder(4, 1);
    assert!(matches!(enc.push_output(vec![3u8; 900], None, NOW), FecOutput::Buffered));
    assert!(!enc.needs_flush(NOW + 1_000));
    assert!(enc.needs_flush(NOW + 1_000 + FEC_FLUSH_TIMEOUT));
}

#[test]
fn flush_timeout_emits_partial_group() {
    let mut enc = encoder(4, 1);
    match enc.push_output(vec![7u8; 120], None, NOW) {
        FecOutput::Passthrough(flushed) => assert_eq!(flushed.len(), 1),
        _ => panic!("120B packet should flush immediately as passthrough"),
    }
    let mut enc = encoder(4, 1);
    assert!(matches!(enc.push_output(vec![8u8; 900], None, NOW), FecOutput::Buffered));
    assert!(enc.needs_flush(NOW + FEC_FLUSH_TIMEOUT + 2_000));
    match enc.flush(None) {
        FecOutput::Encoded(flushed) => assert!((2..=5).contains(&flushed.len())),
        FecOutput::Passthrough(flushed) => assert_eq!(flushed.len(), 1),
        FecOutput::Buffered => panic!("unexpected buffered flush"),
    }
}

#[test]
fn simulated_five_percent_loss_still_recovers_payloads() {
    let mut rng = rand::thread_rng();
    let mut sent_payload = 0usize;
    let mut recovered_payload = 0usize;
    let mut dec = decoder();
    for g in 0..20 {
        let mut enc = encoder(5, 1);
        let mut group = Vec::new();
        for i in 0..5 {
            let payload = vec![(g * 10 + i) as u8; FEC_BUFFER_TEST_LEN];
            sent_payload += 1;
            if let Some(pkts) = enc.push(payload, NOW) {
                group = pkts;
            }
        }
        for pkt in group {
            if rng.gen_bool(0.05) {
                continue;
            }
            let out = dec.push_shard(&pkt, NOW);
            recovered_payload += out.recovered.len();
        }
    }
    assert!(recovered_payload >= sent_payload / 2);
}

#[test]
fn oversize_packet_is_passthrough_not_truncated() {
    let mut enc = encoder(5, 1);
    let pkt = vec![1u8; FEC_SHARD_PAYLOAD_SIZE + 50];
    match enc.push_output(pkt.clone(), None, NOW) {
        FecOutput::Passthrough(v) => {
            assert_eq!(v.len(), 1);
            assert_eq!(v[0].len(), pkt.len());
        }
        _ => panic!("oversize must bypass"),
    }
}

#[test]
fn push_output_insufficient_queue_budget_emits_passthrough() {
    let mut enc = encoder(5, 1);
    let budget = Some((5, 10));
    for i in 0..4 {
        let p = vec![i as u8; FEC_BUFFER_TEST_LEN];
        assert!(matches!(enc.push_output(p, budget, NOW), FecOutput::Buffered));
    }
    let p = vec![9u8; FEC_BUFFER_TEST_LEN];
    match enc.push_output(p, budget, NOW) {
        FecOutput::Passthrough(v) => assert_eq!(v.len(), 5),
        FecOutput::Buffered => panic!("expected passthrough for budget, got Buffered"),
        FecOutput::Encoded(_) => panic!("expected passthrough for budget, got Encoded"),
    }
}

#[test]
fn decoder_rejects_invariant_mismatch_without_panic() {
    let mut dec = decoder();
    let p1 = frame(7, 0, 5, 1, &[16u8, 0, 1, 1, 1, 1, 1, 1, 1, 1, 1, 1, 1, 1, 1, 1]);
    let p2 = frame(7, 1, 4, 2, &[16u8, 0, 2, 2, 2, 2, 2, 2, 2, 2, 2, 2, 2, 2, 2, 2]);
    let r1 = dec.push_shard(&p1, NOW);
    assert!(!r1.invalid);
    let r2 = dec.push_shard(&p2, NOW);
    assert!(r2.invalid);
}

#[test]
fn decoder_rejects_what_is_no_frame() {
    let mut dec = decoder();
    assert!(dec.push_shard(&[FRAME, 1, 2], NOW).recovered.is_empty());
    let mut p = frame(7, 0, 5, 1, &[1; 16]);
    p[0] = FRAME + 1;
    assert_eq!(dec.push_shard(&p, NOW).shards_new, 0);
    assert!(dec.is_empty());
}

#[test]
fn decoder_evict_expired_clears_idle_groups() {
    let mut dec = decoder();
    let p = frame(9, 0, 5, 1, &[16u8, 0, 3, 3, 3, 3, 3, 3, 3, 3, 3, 3, 3, 3, 3, 3]);
    assert!(!dec.push_shard(&p, NOW).invalid);
    assert!(!dec.is_empty());
    for group in dec.groups.entries.iter_mut() {
        group.1.created_at = NOW - 1_000_000;
    }
    let _ = dec.evict_expired(NOW);
    assert!(dec.is_empty());
}

#[test]
fn effective_shard_payload_size_clamps_to_path_mtu() {
    // 1220 - 28 - 10 = 1182.
    assert_eq!(effective_shard_payload_size(FEC_SHARD_PAYLOAD_SIZE, 1220), Some(1182));
    assert_eq!(effective_shard_payload_size(FEC_SHARD_PAYLOAD_SIZE, 1200), Some(1162));
    // Less than 512 + 28 + 10 = 550 is too little.
    assert_eq!(effective_shard_payload_size(FEC_SHARD_PAYLOAD_SIZE, 549), None);
    assert_eq!(effective_shard_payload_size(FEC_SHARD_PAYLOAD_SIZE, 550), Some(512));
    // A smaller size that is configured wins.
    assert_eq!(effective_shard_payload_size(900, 1500), Some(900));
    let max = 1220 - UNDERLAY_IPV4_UDP_OVERHEAD - FEC_COMPACT_HEADER_LEN;
    assert_eq!(max, 1182);
}

#[test]
fn flush_passthrough_emits_originals_without_parity() {
    let mut enc = encoder(5, 1);
    let a = vec![1u8; FEC_BUFFER_TEST_LEN];
    let b = vec![2u8; FEC_BUFFER_TEST_LEN];
    assert!(matches!(enc.push_output(a.clone(), None, NOW), FecOutput::Buffered));
    assert!(matches!(enc.push_output(b.clone(), None, NOW), FecOutput::Buffered));
    match enc.flush_passthrough() {
        FecOutput::Passthrough(v) => {
            assert_eq!(v.len(), 2);
            assert_eq!(v[0], a);
            assert_eq!(v[1], b);
        }
        _ => panic!("expected Passthrough, got non-passthrough variant"),
    }
    assert!(matches!(enc.flush_passthrough(), FecOutput::Buffered));
}

#[test]
fn shard_pool_filled_after_full_encode() {
    let mut enc = encoder(4, 1);
    let mut encoded = false;
    for i in 0..4 {
        if let Some(_pkts) = enc.push(vec![i as u8; FEC_BUFFER_TEST_LEN], NOW) {
            encoded = true;
        }
    }
    assert!(encoded);
    assert!(enc.shard_pool_len() >= 5, "pool len {}", enc.shard_pool_len());
}

#[test]
fn shard_pool_reuse_recovers_shorter_payloads() {
    let mut enc = encoder(3, 1);
    for i in 0..3 {
        let _ = enc.push(vec![(10 + i) as u8; 400], NOW);
    }
    assert!(enc.shard_pool_len() >= 4);

    // Long enough to wait for others.
    let expected: Vec<Vec<u8>> = (0..3).map(|i| vec![(20 + i) as u8; 256]).collect();
    let mut frames = None;
    for p in &expected {
        if let Some(pkts) = enc.push(p.clone(), NOW) {
            frames = Some(pkts);
        }
    }
    let frames = frames.expect("second group encoded");
    assert_eq!(frames.len(), 4);

    let mut dec = decoder();
    let mut recovered = Vec::new();
    for pkt in &frames {
        let r = dec.push_shard(pkt, NOW);
        if !r.recovered.is_empty() {
            recovered = r.recovered;
        }
    }
    assert_eq!(recovered, expected);
}

#[test]
fn take_shard_buf_zeros_dirty_pooled_buffer() {
    let mut enc = FecEncoder::with_flush(
        FRAME,
        3,
        1,
        512,
        FEC_FLUSH_TIMEOUT,
        FEC_FLUSH_TIMEOUT_AGGRESSIVE,
    );
    enc.shard_pool.push(vec![0xAB; 512]);
    let buf = enc.take_shard_buf();
    assert_eq!(buf.len(), 512);
    assert!(buf.iter().all(|&b| b == 0));
}

#[test]
fn shard_pool_returned_on_queue_budget_passthrough() {
    let mut enc = encoder(5, 1);
    let budget = Some((5, 10));
    for i in 0..4 {
        let p = vec![i as u8; FEC_BUFFER_TEST_LEN];
        assert!(matches!(enc.push_output(p, budget, NOW), FecOutput::Buffered));
    }
    let p = vec![9u8; FEC_BUFFER_TEST_LEN];
    match enc.push_output(p, budget, NOW) {
        FecOutput::Passthrough(v) => assert_eq!(v.len(), 5),
        FecOutput::Buffered => panic!("expected passthrough for budget, got Buffered"),
        FecOutput::Encoded(_) => panic!("expected passthrough for budget, got Encoded"),
    }
    assert_eq!(enc.shard_pool_len(), 5);
}

#[test]
fn apply_tuning_clears_shard_pool_on_size_change() {
    let mut enc = encoder(4, 1);
    for i in 0..4 {
        let _ = enc.push(vec![i as u8; FEC_BUFFER_TEST_LEN], NOW);
    }
    assert!(enc.shard_pool_len() > 0);
    enc.apply_tuning(enc.shard_payload_size(), FEC_FLUSH_TIMEOUT, FEC_FLUSH_TIMEOUT_AGGRESSIVE);
    assert!(enc.shard_pool_len() > 0, "same size must keep pool");
    let new_size = enc.shard_payload_size().saturating_sub(64).max(FEC_SHARD_PAYLOAD_MIN);
    assert_ne!(new_size, enc.shard_payload_size());
    enc.apply_tuning(new_size, FEC_FLUSH_TIMEOUT, FEC_FLUSH_TIMEOUT_AGGRESSIVE);
    assert_eq!(enc.shard_pool_len(), 0);
}

#[test]
fn encoded_shards_fit_under_path_mtu_udp_budget() {
    let min_path_mtu = 1220;
    let shard = effective_shard_payload_size(FEC_SHARD_PAYLOAD_SIZE, min_path_mtu).unwrap();
    let mut enc = FecEncoder::with_flush(
        FRAME,
        5,
        1,
        shard,
        FEC_FLUSH_TIMEOUT,
        FEC_FLUSH_TIMEOUT_AGGRESSIVE,
    );
    let mut group = None;
    for i in 0..5 {
        let p = vec![i as u8; 300];
        if let FecOutput::Encoded(pkts) = enc.push_output(p, None, NOW) {
            group = Some(pkts);
        }
    }
    let pkts = group.expect("full group should encode");
    let udp_budget = min_path_mtu - UNDERLAY_IPV4_UDP_OVERHEAD;
    for pkt in pkts {
        assert!(
            pkt.len() <= udp_budget,
            "FEC wire {} exceeds UDP budget {}",
            pkt.len(),
            udp_budget
        );
        assert_eq!(pkt.len(), FEC_COMPACT_HEADER_LEN + shard);
    }
}

#[test]
fn groups_have_different_ids() {
    let mut enc = encoder(2, 1);
    let mut ids = Vec::new();
    for _ in 0..3 {
        let _ = enc.push(vec![1; 300], NOW);
        let pkts = enc.push(vec![2; 300], NOW).unwrap();
        ids.push(pkts[0][1..5].to_vec());
        assert_eq!(pkts[0][1..5], pkts[2][1..5]);
    }
    assert_ne!(ids[0], ids[1]);
    assert_ne!(ids[1], ids[2]);
}

#[test]
fn salts_are_drawn_by_chance() {
    let first = encoder(2, 1).group_salt;
    assert!((0..8).any(|_| encoder(2, 1).group_salt != first));
}

#[test]
fn changed_ratios_flush_what_waits() {
    let mut enc = encoder(4, 1);
    let _ = enc.push_output(vec![1; 300], None, NOW);
    let _ = enc.push_output(vec![2; 300], None, NOW);
    match enc.update_ratio_with_flush(5, 1, None) {
        FecOutput::Encoded(v) => assert_eq!(v.len(), 3),
        _ => panic!("two packets are coded"),
    }
    assert_eq!(enc.ratio(), (5, 1));
    assert_eq!(enc.pending_len(), 0);
}

#[test]
fn shards_hold_their_packet() {
    assert_eq!(shard_packet(&vec![3, 0, 7, 8, 9, 0, 0]), Some(vec![7, 8, 9]));
    assert_eq!(shard_packet(&vec![9, 0, 7, 8, 9, 0, 0]), None);
}

// The worker.

fn dest() -> Endpoint {
    Endpoint { ip: IpAddr::V4(0x7F00_0001), port: 9 }
}

fn worker() -> WorkerState {
    WorkerState::new(FRAME, FecTxTuning::default())
}

fn lens() -> QueueLens {
    QueueLens { lens: Table::new(), cap: 10_000 }
}

fn push(w: &mut WorkerState, pkt: Vec<u8>) -> Vec<FecOutput> {
    let hints = w.hints_for(dest());
    w.handle_push(dest(), pkt, 4, 1, Some((0, 10_000)), hints, NOW)
}

fn normal(ev: Option<FecTxEvent>) -> Option<(usize, NormalOfferKind)> {
    match ev {
        Some(FecTxEvent::EnqueueNormal { pkts, kind, .. }) => Some((pkts.len(), kind)),
        _ => None,
    }
}

#[test]
fn flush_all_barrier_replies() {
    let mut w = worker();
    let (out, stop) = w.handle_control(FecTxControl::FlushAll, &lens());
    assert!(out.is_empty());
    assert!(!stop);
}

#[test]
fn remove_peer_barrier_replies() {
    let mut w = worker();
    let _ = push(&mut w, vec![1; 300]);
    let (_, stop) = w.handle_control(FecTxControl::RemovePeer { dest: dest() }, &lens());
    assert!(!stop);
    assert!(w.encoders.is_empty());
}

#[test]
fn reset_session_barrier_replies() {
    let mut w = worker();
    let _ = push(&mut w, vec![1; 300]);
    let (_, stop) = w.handle_control(FecTxControl::ResetSession, &lens());
    assert!(!stop);
    assert!(w.encoders.is_empty());
}

#[test]
fn fetch_max_flush_coalesce_drain_wins() {
    let mut req = request_flush_due(0, false);
    assert_eq!(req, 1);
    req = request_flush_due(req, true);
    assert_eq!(req, 2);
    assert_eq!(request_flush_due(req, false), 2);
}

#[test]
fn set_encode_disabled_push_emits_passthrough() {
    let mut w = worker();
    let _ = w.handle_control(FecTxControl::SetEncodeEnabled { enabled: false }, &lens());
    let mut out = push(&mut w, b"hello".to_vec());
    assert_eq!(out.len(), 1);
    match dispatch_output(dest(), out.remove(0), false) {
        Some(FecTxEvent::EnqueueNormal { pkts, kind, .. }) => {
            assert_eq!(kind, NormalOfferKind::Passthrough);
            assert_eq!(pkts.len(), 1);
            assert_eq!(&pkts[0][..], b"hello");
        }
        _ => panic!("no event"),
    }
}

#[test]
fn retune_barrier_sets_shard_push_has_no_shard_field() {
    let mut w = worker();
    let small = 600usize;
    let _ = w.handle_control(
        FecTxControl::Retune(FecTxTuning {
            shard: small,
            flush_std: FEC_FLUSH_TIMEOUT,
            flush_agg: FEC_FLUSH_TIMEOUT_AGGRESSIVE,
        }),
        &lens(),
    );
    for i in 0..4u8 {
        let _ = push(&mut w, vec![i; 100]);
    }
    let (_, stop) = w.handle_control(FecTxControl::FlushAll, &lens());
    assert!(!stop);
    assert_eq!(w.tuning.shard, small);
}

#[test]
fn retune_then_push_uses_new_shard_not_old() {
    let mut w = worker();
    let mut saw_pre = false;
    for out in push(&mut w, vec![1u8; 100]) {
        if normal(dispatch_output(dest(), out, false)) == Some((1, NormalOfferKind::Passthrough)) {
            saw_pre = true;
        }
    }
    let _ = push(&mut w, vec![1u8; 300]);
    let tiny = 512usize;
    let (flushed, _) = w.handle_control(
        FecTxControl::Retune(FecTxTuning {
            shard: tiny,
            flush_std: FEC_FLUSH_TIMEOUT,
            flush_agg: FEC_FLUSH_TIMEOUT_AGGRESSIVE,
        }),
        &lens(),
    );
    for (to, out) in flushed {
        if normal(dispatch_output(to, out, false)) == Some((1, NormalOfferKind::Passthrough)) {
            saw_pre = true;
        }
    }
    assert!(saw_pre, "Retune must flush prior group");
    assert!(w.encoders.is_empty());
    for i in 0..4u8 {
        let _ = push(&mut w, vec![i; 200]);
    }
    let _ = push(&mut w, vec![7; 300]);
    assert_eq!(w.encoders.get(&dest()).unwrap().shard_payload_size(), tiny);
    let (_, stop) = w.handle_control(FecTxControl::FlushAll, &lens());
    assert!(!stop);
}

#[test]
fn stop_flushes_passthrough_event_before_join() {
    let mut w = worker();
    let _ = push(&mut w, vec![9u8; 300]);
    let (flushed, stop) = w.handle_control(FecTxControl::Stop, &lens());
    assert!(stop);
    let mut saw = false;
    for (to, out) in flushed {
        if let Some((n, NormalOfferKind::Passthrough)) = normal(dispatch_output(to, out, false)) {
            assert_eq!(n, 1);
            saw = true;
        }
    }
    assert!(saw, "Stop must flush sparse group");
}

#[test]
fn flush_all_passthrough_events_nonblocking() {
    let mut w = worker();
    let _ = push(&mut w, vec![1u8; 300]);
    let (flushed, _) = w.handle_control(FecTxControl::FlushAll, &lens());
    let saw = flushed.into_iter().any(|(to, out)| {
        normal(dispatch_output(to, out, false)) == Some((1, NormalOfferKind::Passthrough))
    });
    assert!(saw, "expected passthrough event after FlushAll of sparse group");
}

#[test]
fn encoded_batch_false_emits_batch_fallback() {
    let mut w = worker();
    let mut batch = None;
    for i in 0..4u8 {
        for out in push(&mut w, vec![i; 300]) {
            if let Some(FecTxEvent::Batch { dest, pkts }) = dispatch_output(dest(), out, false) {
                batch = Some((dest, pkts));
            }
        }
    }
    let (to, pkts) = batch.expect("a batch");
    assert_eq!(pkts.len(), 5);
    assert!(batch_answered(to, pkts.clone(), true).is_none());
    assert_eq!(
        normal(batch_answered(to, pkts, false)),
        Some((5, NormalOfferKind::BatchFallback))
    );
}

#[test]
fn overdue_groups_are_flushed() {
    let mut w = worker();
    let _ = push(&mut w, vec![1u8; 300]);
    assert!(w.flush_due(false, &lens(), NOW).is_empty());
    assert_eq!(w.flush_due(false, &lens(), NOW + 2_000).len(), 1);
    let _ = push(&mut w, vec![1u8; 300]);
    let drained = w.flush_due(true, &lens(), NOW + 5_000);
    let kinds: Vec<_> = drained
        .into_iter()
        .map(|(to, out)| normal(dispatch_output(to, out, true)))
        .collect();
    assert_eq!(kinds, vec![Some((1, NormalOfferKind::DrainPassthrough))]);
}
