//! Control-plane and data-plane logic of a peer-to-peer overlay network.

pub mod addr;
pub mod apd;
pub mod background_cc;
pub mod chance;
pub mod claim;
pub mod claim_gossip;
pub mod claim_laws;
pub mod coding_laws;
pub mod command_laws;
pub mod config;
pub mod decentralized;
pub mod engine_bytes;
pub mod engine_cmd;
pub mod engine_ctrl;
pub mod engine_data;
pub mod engine_evict;
pub mod engine_para;
pub mod engine_ping;
pub mod engine_probe;
pub mod engine_reconnect;
pub mod engine_roster;
pub mod engine_routes;
pub mod engine_rx;
pub mod engine_state;
pub mod engine_stun;
pub mod engine_ticks;
pub mod fec;
pub mod fec_codec;
pub mod fec_decoder;
pub mod fec_decoders;
pub mod fec_laws;
pub mod fec_ratio;
pub mod fec_tx_worker;
pub mod join_laws;
pub mod keys;
pub mod lane;
pub mod lane_map;
pub mod limit_laws;
pub mod msyn_assemble;
pub mod msyn_sync;
pub mod mtu_policy;
pub mod outbound_udp;
pub mod pace_clock;
pub mod pacing;
pub mod pacing_defaults;
pub mod pacing_engine;
pub mod pacing_laws;
pub mod pacing_tick;
pub mod peer_laws;
pub mod punch_state;
pub mod punch_targets;
pub mod queue_laws;
pub mod receive_laws;
pub mod route_laws;
pub mod routing;
pub mod search_laws;
pub mod session_laws;
pub mod stun_votes;
pub mod sync_laws;
pub mod table;
pub mod text;
pub mod text_laws;
pub mod tick_laws;
pub mod view_laws;
pub mod wire;
pub mod wire_laws;
