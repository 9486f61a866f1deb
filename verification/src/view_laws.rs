//! What values show to those who look at them from outside is what they hold.

use crate::claim_gossip::{ClaimRecord, FightSuppress, LeaveTombstone};
use crate::decentralized;
use crate::decentralized::{
    DecentralizedState, HttpAnnounceWork, TrackerDatagramEvent, TrackerSlot, TrackerUrl,
};
use crate::engine_data;
use crate::engine_roster::{RosterChange, RosterView};
use crate::engine_routes::{AppliedRoute, MsynRoute};
use crate::engine_rx::{ParsedPlan, ParsedView};
use crate::engine_state::{Identity, PeerGone};
use crate::fec;
use crate::fec::{FecEncoder, FecOutput, OutputView};
use crate::lane::PeerDataQueue;
use crate::msyn_assemble::{MsynPartPayload, PartialMsyn};
use crate::msyn_sync::{MsynRouteItem, RouteSyncRow};
use crate::pacing::PacingEngine;
use crate::punch_state::PunchState;
use crate::routing;
use crate::routing::RouteEntry;
use vstd::prelude::*;

verus! {

/// A claim shows its node, its address, its epoch and where its node may be.
pub proof fn claims_show(x: ClaimRecord)
    ensures
        x@.node_id == x.node_id@,
        x@.vip == x.vip@,
        x@.vip_epoch == x.vip_epoch,
        x@.ep_hints == engine_data::names(x.ep_hints@),
{
}

/// The mark of a node that left shows the node, its address, its epoch and how long it counts.
pub proof fn departures_show(x: LeaveTombstone)
    ensures
        x@.node_id == x.node_id@,
        x@.vip == x.vip@,
        x@.vip_epoch == x.vip_epoch,
        x@.expires_at == x.expires_at,
{
}

/// The mark of a claim that lost shows the node, the address, the epoch and how long it counts.
pub proof fn defeats_show(x: FightSuppress)
    ensures
        x@.node_id == x.node_id@,
        x@.vip == x.vip@,
        x@.vip_epoch == x.vip_epoch,
        x@.expires_at == x.expires_at,
{
}

/// A tracker shows where it is, when it was asked, and what is under way.
pub proof fn trackers_show(x: TrackerSlot)
    ensures
        x@.url == x.url@,
        x@.scheme == x.scheme,
        x@.host == x.host@,
        x@.port == x.port,
        x@.path == x.path@,
        x@.lookup == decentralized::text_of(x.lookup),
        x@.addrs == x.addrs@,
        x@.use_idx == x.use_idx,
        x@.last_announce == x.last_announce,
        x@.server_interval_secs == x.server_interval_secs,
        x@.resolve_in_flight == x.resolve_in_flight,
        x@.http_in_flight == x.http_in_flight,
        x@.http_in_flight_since == x.http_in_flight_since,
{
}

/// A request over HTTP shows whom it asks, for which room, and in whose name.
pub proof fn requests_show(x: HttpAnnounceWork)
    ensures
        x@.slot_idx == x.slot_idx as int,
        x@.generation == x.generation,
        x@.tracker_url == x.tracker_url@,
        x@.host == x.host@,
        x@.port == x.port,
        x@.path == x.path@,
        x@.room_id == x.room_id@,
        x@.peer_id == x.peer_id@,
        x@.announce_port == x.announce_port,
        x@.wanted == x.wanted,
{
}

/// A search shows its room, its name, its trackers and what it found.
pub proof fn searches_show(x: DecentralizedState)
    ensures
        x@.active == x.active,
        x@.generation == x.generation,
        x@.room_id == x.room_id@,
        x@.peer_id == x.peer_id@,
        x@.announce_secs == x.announce_secs,
        x@.slots == decentralized::slot_views(x.slots@),
        x@.is_joiner == x.is_joiner,
        x@.join_body == decentralized::body_of(x.join_body),
        x@.join_owner_hint == x.join_owner_hint,
        x@.pending == x.pending@,
        x@.connections == x.connections@,
        x@.discovered == x.discovered@,
        x@.listen_port == x.listen_port,
        x@.had_join_announce_response == x.had_join_announce_response,
{
}

/// A route of a sync shows its address, its endpoint and its node.
pub proof fn routes_of_syncs_show(x: MsynRoute)
    ensures
        x@.vip == routing::opt_str(x.vip),
        x@.ep == x.ep,
        x@.node_id == routing::opt_str(x.node_id),
{
}

/// A route that was taken shows its address, its endpoint, its node and where it led before.
pub proof fn taken_routes_show(x: AppliedRoute)
    ensures
        x@.vip == x.vip@,
        x@.ep == x.ep,
        x@.node_id == routing::opt_str(x.node_id),
        x@.prev == x.prev,
{
}

/// An identity shows who this node is, and who the owner.
pub proof fn identities_show(x: Identity)
    ensures
        x@.is_owner == x.is_owner,
        x@.my_vip == x.my_vip@,
        x@.my_vip_u32 == x.my_vip_u32,
        x@.my_node_id == x.my_node_id@,
        x@.subnet_prefix == x.subnet_prefix,
        x@.owner_vip_cached == x.owner_vip_cached@,
        x@.owner_node_id == x.owner_node_id@,
        x@.owner_ep == x.owner_ep,
        x@.owner_ep_trusted == x.owner_ep_trusted,
{
}

/// A peer that is gone shows its address, the number of it and its node.
pub proof fn goners_show(x: PeerGone)
    ensures
        x@.vip == x.vip@,
        x@.vip_u32 == x.vip_u32,
        x@.node_id == routing::opt_str(x.node_id),
{
}

/// An encoder shows its ratio, its group and how long it waits.
pub proof fn encoders_show(x: FecEncoder)
    ensures
        x@.frame_type == x.frame_type,
        x@.salt == x.group_salt,
        x@.seq == x.group_seq,
        x@.data == x.data_shards,
        x@.parity == x.parity_shards,
        x@.pending == fec::originals(x.shard_buf@),
        x@.first_at == x.first_at,
        x@.pool == x.shard_pool@.len(),
        x@.timeout == x.group_flush_timeout,
        x@.shard == x.shard_payload_size,
        x@.standard == x.flush_standard,
        x@.aggressive == x.flush_aggressive,
{
}

/// The lanes of a destination show their packets, and what the destination may send.
pub proof fn lanes_show(x: PeerDataQueue)
    ensures
        x@.small == x.small@,
        x@.bulk == x.bulk@,
        x@.deficit == x.deficit,
        x@.small_run == x.consecutive_small_pops,
        x@.rtt_bits == x.rtt_bits,
        x@.queuing_delay_bits == x.queuing_delay_bits,
{
}

/// A sync that is under way shows its number, whence and whither it leads, and its parts.
pub proof fn partial_syncs_show(x: PartialMsyn)
    ensures
        x@.sync_id == x.sync_id,
        x@.from_rev == x.from_rev,
        x@.to_rev == x.to_rev,
        x@.parts_total == x.parts_total,
        x@.parts == x.parts@.map_values(|p: MsynPartPayload| p@),
        x@.first_seen == x.first_seen,
{
}

/// The pacer shows its queues: control packets, packets to send again, and those of destinations.
pub proof fn pacers_show(x: PacingEngine)
    ensures
        x@.cfg == x.config,
        x@.control == x.control_q@,
        x@.rtx == x.retransmit_q@,
        x@.lanes == x.peer_queues@,
        x@.non_empty == x.non_empty_peers as nat,
        x@.errors == x.consecutive_errors,
        x@.interleave == x.interleave_counter,
        x@.cursor == x.drr_cursor,
        x@.apd == x.apd,
        x@.n == x.counters,
{
}

/// The punches show which run, and when attempts began.
pub proof fn punches_show(x: PunchState)
    ensures
        x@.running == x.running@,
        x@.began == x.began@,
        x@.fastpath == x.fastpath,
        x@.announced == x.join_overlay_last_peers@.dom(),
{
}

/// A route shows its endpoint, its node, its state and when its peer was heard.
pub proof fn routes_show(x: RouteEntry)
    ensures
        x@.endpoint == x.endpoint,
        x@.node_id == x.node_id@,
        x@.state == x.state,
        x@.last_seen == x.last_seen,
{
}

/// What is told of a tracker's answer: whose it is, which peers it names, and whether it is
/// the first of a join.
pub proof fn tracker_events_show(x: TrackerDatagramEvent)
    ensures
        x@.tracker_url == x.tracker_url@,
        x@.announce is Some <==> x.announce is Some,
        x.announce matches Some(a) ==> (x@.announce->0).0 == a.peers@ && (x@.announce->0).1
            == a.first_announce_in_join,
{
}

/// A change of the roster shows the member: its node, its name, its address and its
/// endpoint.
pub proof fn roster_changes_show(x: RosterChange)
    ensures
        x matches RosterChange::Upsert(p) ==> (x@ matches RosterView::Upsert {
            node_id,
            name,
            virtual_ip,
            real_ip,
        } && node_id == p.node_id@ && name == p.name@ && virtual_ip == p.virtual_ip@ && real_ip
            == p.real_ip),
        x matches RosterChange::Remove(v) ==> (x@ matches RosterView::Remove { virtual_ip }
            && virtual_ip == v@),
{
}

/// What comes out of an encoder is shown as what it is: frames or packets.
pub proof fn encoder_output_shows(x: FecOutput)
    ensures
        x matches FecOutput::Encoded(v) ==> (x@ matches OutputView::Encoded(s) && s.len() == v@.len()
            && forall|i: int| 0 <= i < s.len() ==> #[trigger] s[i] == v@[i]@),
        x matches FecOutput::Passthrough(v) ==> (x@ matches OutputView::Passthrough(s) && s.len()
            == v@.len() && forall|i: int| 0 <= i < s.len() ==> #[trigger] s[i] == v@[i]@),
        x is Buffered <==> x@ is Buffered,
{
}

/// An entry of a sync shows its address, its endpoint and its node, in this order.
pub proof fn sync_entries_show(x: MsynRouteItem, r: RouteSyncRow)
    ensures
        x@ == (x.vip@, x.ep@, x.node_id@),
        r.item() == (r.vip@, r.endpoint@, r.node_id@),
{
}

/// What was read of a packet that is answered here shows the probe.
pub proof fn parsed_packets_show(x: ParsedPlan)
    ensures
        x matches ParsedPlan::AnswerProbe { head } ==> x@ == (ParsedView::AnswerProbe {
            head: head@,
        }),
        x matches ParsedPlan::ProbeAck { size, session, probe } ==> x@ == (ParsedView::ProbeAck {
            size,
            session,
            probe,
        }),
        x is Ignore <==> x@ is Ignore,
        x is Signed <==> x@ is Signed,
        x is Control <==> x@ is Control,
{
}

/// The address of a tracker shows how it was given, and how it was read.
pub proof fn tracker_urls_show(u: TrackerUrl)
    ensures
        decentralized::url_view(u).url == u.url@,
        decentralized::url_view(u).endpoint is Some <==> u.endpoint is Some,
        u.endpoint matches Some(e) ==> decentralized::url_view(u).endpoint->0 == (
            e.scheme,
            e.host@,
            e.port,
            e.path@,
        ),
        u.lookup matches Some(l) ==> decentralized::url_view(u).lookup == Some(l@),
        u.lookup is None ==> decentralized::url_view(u).lookup is None,
{
}

} // verus!
