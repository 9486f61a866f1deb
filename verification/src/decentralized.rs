//! Finding peers without a server of one's own: trackers are asked who else is in
//! a room, and the endpoints that they name are tried.
//!
//! Times are milliseconds; the intervals of trackers are seconds.

use crate::addr::{Endpoint, IpAddr};
use crate::chance::random_u32;
use crate::engine_state;
use crate::engine_state::since;
use crate::punch_targets;
use crate::punch_targets::{
    expand_symmetric_targets, has_endpoint, offer_all, MAX_EXPANDED_PUNCH_TARGETS, SYMMETRIC_SCAN_WIDTH,
    SYMMETRIC_SCAN_WIDTH_OWNER_HINT,
};
use crate::table;
use crate::table::{Key, Table};
use crate::wire;
use crate::wire::be_u32_at;
use vstd::prelude::*;

verus! {

/// How long a connection to a tracker lasts.
pub const CONNECTION_TTL: u64 = 55_000;

/// How long an answer of a tracker is waited for.
pub const PENDING_TTL: u64 = 20_000;

/// How long an answer over HTTP is waited for.
pub const HTTP_PENDING_TTL: u64 = 20_000;

/// How many join requests go out in one tick.
pub const MAX_FANOUT_MPJN_PER_TICK: usize = 8;

/// How many of the endpoints that were found are tried.
pub const MAX_PUNCH_TARGETS: usize = 64;

/// How long the name of a tracker is looked up.
pub const DECENTRALIZED_RESOLVE_TIMEOUT: u64 = 8_000;

/// The longest time between two requests to a tracker.
pub const MAX_REANNOUNCE_SECS: u64 = 300;

/// The shortest time between two requests to a tracker.
pub const MIN_REANNOUNCE_SECS: u64 = 60;

pub const MAX_ACTIVE_TRACKERS: usize = 32;

/// How many requests over HTTP are under way at a time.
pub const MAX_HTTP_IN_FLIGHT: usize = 4;

/// How long an endpoint counts after a tracker named it.
pub const DISCOVERED_TTL: u64 = 300_000;

/// How many endpoints are remembered.
pub const MAX_DISCOVERED: usize = 256;

/// How many peers a tracker is asked for.
pub const WANTED_PEERS: u32 = 50;

/// The least port that is announced.
pub const LISTEN_PORT_MIN: u16 = 7878;

/// The port under which this node is announced: that of its socket, as far as
/// that is known, and not below the least.
pub fn listen_port(local: Option<u16>) -> (port: u16)
    ensures
        port == match local {
            Some(p) => if p > LISTEN_PORT_MIN {
                p
            } else {
                LISTEN_PORT_MIN
            },
            None => LISTEN_PORT_MIN,
        },
{
    match local {
        Some(p) => if p > LISTEN_PORT_MIN {
            p
        } else {
            LISTEN_PORT_MIN
        },
        None => LISTEN_PORT_MIN,
    }
}

/// The length of the shortest answer of a tracker.
pub const SHORTEST_ANSWER: usize = 16;

/// How a tracker is spoken to.
#[derive(Clone, Copy, Debug, PartialEq, Eq, Structural)]
pub enum TrackerScheme {
    Udp,
    Http,
    Https,
}

/// What the address of a tracker says.
pub struct TrackerEndpoint {
    pub scheme: TrackerScheme,
    pub host: String,
    pub port: u16,
    pub path: String,
}

/// The address of a tracker: as it is written, what it says, if it can be read,
/// and the name and port to look up, if it has some.
pub struct TrackerUrl {
    pub url: String,
    pub endpoint: Option<TrackerEndpoint>,
    pub lookup: Option<String>,
}

/// A tracker, and what is known of it.
pub struct TrackerSlot {
    pub url: String,
    pub scheme: TrackerScheme,
    pub host: String,
    pub port: u16,
    pub path: String,
    pub lookup: Option<String>,
    pub addrs: Vec<Endpoint>,
    pub use_idx: usize,
    pub last_announce: Option<u64>,
    pub server_interval_secs: u64,
    pub resolve_in_flight: bool,
    pub http_in_flight: bool,
    pub http_in_flight_since: Option<u64>,
}

/// A tracker, and what is known of it.
#[verifier::ext_equal]
pub ghost struct SlotView {
    pub url: Seq<char>,
    pub scheme: TrackerScheme,
    pub host: Seq<char>,
    pub port: u16,
    pub path: Seq<char>,
    pub lookup: Option<Seq<char>>,
    pub addrs: Seq<Endpoint>,
    pub use_idx: usize,
    pub last_announce: Option<u64>,
    pub server_interval_secs: u64,
    pub resolve_in_flight: bool,
    pub http_in_flight: bool,
    pub http_in_flight_since: Option<u64>,
}

/// The text of a string that may be missing.
pub open spec fn text_of(s: Option<String>) -> Option<Seq<char>> {
    match s {
        Some(t) => Some(t@),
        None => None,
    }
}

impl View for TrackerSlot {
    type V = SlotView;

    open spec fn view(&self) -> SlotView {
        SlotView {
            url: self.url@,
            scheme: self.scheme,
            host: self.host@,
            port: self.port,
            path: self.path@,
            lookup: text_of(self.lookup),
            addrs: self.addrs@,
            use_idx: self.use_idx,
            last_announce: self.last_announce,
            server_interval_secs: self.server_interval_secs,
            resolve_in_flight: self.resolve_in_flight,
            http_in_flight: self.http_in_flight,
            http_in_flight_since: self.http_in_flight_since,
        }
    }
}

impl SlotView {
    /// The place of the address in use is one of the addresses.
    pub open spec fn wf(self) -> bool {
        self.use_idx <= self.addrs.len()
    }

    /// The address in use.
    pub open spec fn current(self) -> Option<Endpoint> {
        if self.addrs.len() == 0 {
            None
        } else {
            Some(self.addrs[self.use_idx as int % self.addrs.len() as int])
        }
    }

    /// After a change to the next address.
    pub open spec fn rotated(self) -> SlotView {
        if self.addrs.len() == 0 {
            self
        } else {
            SlotView {
                use_idx: ((self.use_idx + 1) % self.addrs.len() as int) as usize,
                ..self
            }
        }
    }

    /// How many seconds have to pass between two requests.
    pub open spec fn pause(self, announce_secs: u64) -> int {
        let wish = if self.server_interval_secs > announce_secs {
            self.server_interval_secs
        } else {
            announce_secs
        };
        if wish < MAX_REANNOUNCE_SECS {
            wish as int
        } else {
            MAX_REANNOUNCE_SECS as int
        }
    }

    /// It is time for a request.
    pub open spec fn due(self, announce_secs: u64, now: u64) -> bool {
        match self.last_announce {
            None => true,
            Some(t) => engine_state::elapsed(now, t) >= self.pause(announce_secs) * 1000,
        }
    }

    /// The tracker's name has to be looked up.
    pub open spec fn wants_lookup(self) -> bool {
        self.scheme == TrackerScheme::Udp && self.addrs.len() == 0 && !self.resolve_in_flight
            && self.lookup is Some
    }

    /// The answer over HTTP is waited for no longer.
    pub open spec fn http_overdue(self, now: u64) -> bool {
        self.http_in_flight && match self.http_in_flight_since {
            Some(t) => engine_state::elapsed(now, t) >= HTTP_PENDING_TTL,
            None => true,
        }
    }

    /// After what is overdue was given up.
    pub open spec fn http_swept(self, now: u64) -> SlotView {
        if self.http_overdue(now) {
            SlotView { http_in_flight: false, http_in_flight_since: None, ..self }
        } else {
            self
        }
    }

    /// A request over HTTP is due. There is none over HTTPS.
    pub open spec fn wants_http(self, announce_secs: u64, now: u64) -> bool {
        self.scheme == TrackerScheme::Http && !self.http_in_flight && self.due(announce_secs, now)
    }
}

impl TrackerSlot {
    /// A tracker of which nothing is known yet.
    pub fn try_new(url: TrackerUrl, announce_secs: u64) -> (out: Option<Self>)
        ensures
            match out {
                Some(slot) => fresh_slot(url_view(url), announce_secs) == Some(slot@),
                None => fresh_slot(url_view(url), announce_secs) is None,
            },
    {
        match url.endpoint {
            Some(ep) => {
                let out = TrackerSlot {
                    url: url.url,
                    scheme: ep.scheme,
                    host: ep.host,
                    port: ep.port,
                    path: ep.path,
                    lookup: url.lookup,
                    addrs: Vec::new(),
                    use_idx: 0,
                    last_announce: None,
                    server_interval_secs: announce_secs,
                    resolve_in_flight: false,
                    http_in_flight: false,
                    http_in_flight_since: None,
                };
                proof {
                    assert(out@.addrs =~= Seq::<Endpoint>::empty());
                }
                Some(out)
            },
            None => None,
        }
    }

    /// The address in use.
    pub fn current_addr(&self) -> (out: Option<Endpoint>)
        ensures
            out == self@.current(),
    {
        if self.addrs.len() == 0 {
            return None;
        }
        let idx: usize = self.use_idx % self.addrs.len();
        Some(self.addrs[idx])
    }

    /// Changes to the next address.
    pub fn rotate_addr(&mut self)
        requires
            old(self)@.wf(),
        ensures
            final(self)@ == old(self)@.rotated(),
            final(self)@.wf(),
    {
        let n: usize = self.addrs.len();
        if n > 0 {
            if self.use_idx >= n {
                proof {
                    assert(self.use_idx == n);
                    vstd::arithmetic::div_mod::lemma_mod_add_multiples_vanish(1, n as int);
                    if n > 1 {
                        vstd::arithmetic::div_mod::lemma_small_mod(1, n as nat);
                    }
                }
                self.use_idx = if n > 1 {
                    1
                } else {
                    0
                };
            } else {
                self.use_idx = (self.use_idx + 1) % n;
            }
        }
    }

    /// Whether it is time for a request.
    pub fn announce_due(&self, announce_secs: u64, now: u64) -> (b: bool)
        ensures
            b == self@.due(announce_secs, now),
    {
        let wish: u64 = if self.server_interval_secs > announce_secs {
            self.server_interval_secs
        } else {
            announce_secs
        };
        let wait: u64 = if wish < MAX_REANNOUNCE_SECS {
            wish
        } else {
            MAX_REANNOUNCE_SECS
        };
        match self.last_announce {
            None => true,
            Some(t) => since(now, t) >= wait * 1000,
        }
    }

    pub fn is_udp(&self) -> (b: bool)
        ensures
            b == (self.scheme == TrackerScheme::Udp),
    {
        match self.scheme {
            TrackerScheme::Udp => true,
            _ => false,
        }
    }

    pub fn is_http(&self) -> (b: bool)
        ensures
            b == (self.scheme == TrackerScheme::Http),
    {
        match self.scheme {
            TrackerScheme::Http => true,
            _ => false,
        }
    }
}

/// The address of a tracker.
pub ghost struct UrlView {
    pub url: Seq<char>,
    pub endpoint: Option<(TrackerScheme, Seq<char>, u16, Seq<char>)>,
    pub lookup: Option<Seq<char>>,
}

/// The address of a tracker.
pub open spec fn url_view(u: TrackerUrl) -> UrlView {
    UrlView {
        url: u.url@,
        endpoint: match u.endpoint {
            Some(e) => Some((e.scheme, e.host@, e.port, e.path@)),
            None => None,
        },
        lookup: text_of(u.lookup),
    }
}

/// The addresses of trackers.
pub open spec fn url_views(v: Seq<TrackerUrl>) -> Seq<UrlView> {
    Seq::new(v.len(), |i: int| url_view(v[i]))
}

/// A tracker of which nothing is known yet, if its address can be read.
pub open spec fn fresh_slot(u: UrlView, announce_secs: u64) -> Option<SlotView> {
    match u.endpoint {
        Some(e) => Some(
            SlotView {
                url: u.url,
                scheme: e.0,
                host: e.1,
                port: e.2,
                path: e.3,
                lookup: u.lookup,
                addrs: Seq::empty(),
                use_idx: 0,
                last_announce: None,
                server_interval_secs: announce_secs,
                resolve_in_flight: false,
                http_in_flight: false,
                http_in_flight_since: None,
            },
        ),
        None => None,
    }
}

/// The trackers whose addresses can be read, up to the limit.
pub open spec fn fresh_slots(urls: Seq<UrlView>, announce_secs: u64) -> Seq<SlotView>
    decreases urls.len(),
{
    if urls.len() == 0 {
        Seq::empty()
    } else {
        let r = fresh_slots(urls.drop_last(), announce_secs);
        match fresh_slot(urls.last(), announce_secs) {
            Some(slot) => if r.len() < MAX_ACTIVE_TRACKERS {
                r.push(slot)
            } else {
                r
            },
            None => r,
        }
    }
}

/// The trackers, and what is known of them.
pub open spec fn slot_views(v: Seq<TrackerSlot>) -> Seq<SlotView> {
    Seq::new(v.len(), |i: int| v[i]@)
}

/// What a tracker was asked.
#[derive(Clone, Copy, Debug, PartialEq, Eq, Structural)]
pub enum PendingKind {
    Connect,
    Announce,
}

/// A question that was not answered yet.
#[derive(Clone, Copy, Debug, PartialEq, Eq, Structural)]
pub struct PendingOp {
    pub kind: PendingKind,
    pub tracker: Endpoint,
    pub created: u64,
}

/// A connection to a tracker.
#[derive(Clone, Copy, Debug, PartialEq, Eq, Structural)]
pub struct TrackerConn {
    pub id: u64,
    /// When it was made, in milliseconds.
    pub made_at: u64,
}

impl TrackerConn {
    /// The connection is too old to be used.
    pub open spec fn expired(&self, now: u64) -> bool {
        engine_state::elapsed(now, self.made_at) >= CONNECTION_TTL
    }
}

/// A request over HTTP that is to be made.
pub struct HttpAnnounceWork {
    pub slot_idx: usize,
    pub generation: u64,
    pub tracker_url: String,
    pub host: String,
    pub port: u16,
    pub path: String,
    pub room_id: [u8; 20],
    pub peer_id: [u8; 20],
    pub announce_port: u16,
    pub wanted: u32,
}

/// A request over HTTP that is to be made.
#[verifier::ext_equal]
pub ghost struct WorkView {
    pub slot_idx: int,
    pub generation: u64,
    pub tracker_url: Seq<char>,
    pub host: Seq<char>,
    pub port: u16,
    pub path: Seq<char>,
    pub room_id: Seq<u8>,
    pub peer_id: Seq<u8>,
    pub announce_port: u16,
    pub wanted: u32,
}

impl View for HttpAnnounceWork {
    type V = WorkView;

    open spec fn view(&self) -> WorkView {
        WorkView {
            slot_idx: self.slot_idx as int,
            generation: self.generation,
            tracker_url: self.tracker_url@,
            host: self.host@,
            port: self.port,
            path: self.path@,
            room_id: self.room_id@,
            peer_id: self.peer_id@,
            announce_port: self.announce_port,
            wanted: self.wanted,
        }
    }
}

/// What became of a request over HTTP: the interval and the peers that the
/// tracker gave, or what went wrong.
pub struct HttpAnnounceResult {
    pub slot_idx: usize,
    pub generation: u64,
    pub tracker_url: String,
    pub outcome: Result<(u32, Vec<Endpoint>), String>,
}

/// The peers that a tracker named.
pub struct AnnounceInfo {
    pub peers: Vec<Endpoint>,
    pub first_announce_in_join: bool,
}

/// A tracker answered.
pub struct TrackerDatagramEvent {
    pub tracker_url: String,
    pub announce: Option<AnnounceInfo>,
}

/// A tracker answered: its address, the peers that it named, if it was asked for
/// some, and whether that is the first time in a join.
pub ghost struct EventView {
    pub tracker_url: Seq<char>,
    pub announce: Option<(Seq<Endpoint>, bool)>,
}

impl View for TrackerDatagramEvent {
    type V = EventView;

    open spec fn view(&self) -> EventView {
        EventView {
            tracker_url: self.tracker_url@,
            announce: match self.announce {
                Some(a) => Some((a.peers@, a.first_announce_in_join)),
                None => None,
            },
        }
    }
}

/// Whether a datagram was an answer, and what it said.
pub struct DatagramHandleResult {
    pub handled: bool,
    pub event: Option<TrackerDatagramEvent>,
}

/// What a datagram says, read as each of the two answers: the connection, and the
/// interval with the peers.
pub struct TrackerAnswer {
    pub connection: Option<u64>,
    pub announce: Option<(u32, Vec<Endpoint>)>,
}

/// What a tracker is to be sent.
#[derive(Clone, Copy, Debug, PartialEq, Eq)]
pub enum SlotAction {
    Idle,
    SendConnect { to: Endpoint, txn: u32 },
    SendAnnounce { to: Endpoint, txn: u32, connection: u64, announce_port: u16 },
}

/// What is to be done after a tick: where to send, and the join requests.
pub struct DecentralizedTickOutput {
    pub punch_targets: Vec<Endpoint>,
    pub join_fanout: Vec<(Endpoint, Vec<u8>)>,
}

/// The search for peers.
pub struct DecentralizedState {
    pub active: bool,
    pub generation: u64,
    pub room_id: [u8; 20],
    pub peer_id: [u8; 20],
    pub announce_secs: u64,
    pub slots: Vec<TrackerSlot>,
    pub is_joiner: bool,
    pub join_body: Option<Vec<u8>>,
    pub join_owner_hint: Option<Endpoint>,
    pub pending: Table<u32, PendingOp>,
    pub connections: Table<Endpoint, TrackerConn>,
    pub discovered: Table<Endpoint, u64>,
    pub listen_port: u16,
    pub had_join_announce_response: bool,
}

/// The search for peers.
#[verifier::ext_equal]
pub ghost struct SearchView {
    pub active: bool,
    pub generation: u64,
    pub room_id: Seq<u8>,
    pub peer_id: Seq<u8>,
    pub announce_secs: u64,
    pub slots: Seq<SlotView>,
    pub is_joiner: bool,
    pub join_body: Option<Seq<u8>>,
    pub join_owner_hint: Option<Endpoint>,
    pub pending: Map<u32, PendingOp>,
    pub connections: Map<Endpoint, TrackerConn>,
    pub discovered: Map<Endpoint, u64>,
    pub listen_port: u16,
    pub had_join_announce_response: bool,
}

/// The bytes of a body that may be missing.
pub open spec fn body_of(b: Option<Vec<u8>>) -> Option<Seq<u8>> {
    match b {
        Some(v) => Some(v@),
        None => None,
    }
}

impl View for DecentralizedState {
    type V = SearchView;

    open spec fn view(&self) -> SearchView {
        SearchView {
            active: self.active,
            generation: self.generation,
            room_id: self.room_id@,
            peer_id: self.peer_id@,
            announce_secs: self.announce_secs,
            slots: slot_views(self.slots@),
            is_joiner: self.is_joiner,
            join_body: body_of(self.join_body),
            join_owner_hint: self.join_owner_hint,
            pending: self.pending@,
            connections: self.connections@,
            discovered: self.discovered@,
            listen_port: self.listen_port,
            had_join_announce_response: self.had_join_announce_response,
        }
    }
}

/// The endpoint is an address of one of the trackers.
pub open spec fn of_a_tracker(slots: Seq<SlotView>, ep: Endpoint) -> bool {
    exists|i: int| 0 <= i < slots.len() && (#[trigger] slots[i]).addrs.contains(ep)
}

/// No tracker is asked the same thing twice at a time.
pub open spec fn one_of_each(pending: Map<u32, PendingOp>) -> bool {
    forall|a: u32, b: u32| #[trigger]
        pending.dom().contains(a) && #[trigger] pending.dom().contains(b) && a != b ==> !(
        pending[a].tracker == pending[b].tracker && pending[a].kind == pending[b].kind)
}

impl SearchView {
    /// Only trackers are asked, and none the same thing twice at a time.
    pub open spec fn wf(self) -> bool {
        &&& forall|i: int| 0 <= i < self.slots.len() ==> (#[trigger] self.slots[i]).wf()
        &&& one_of_each(self.pending)
        &&& forall|k: u32| #[trigger]
            self.pending.dom().contains(k) ==> of_a_tracker(self.slots, self.pending[k].tracker)
    }

    /// Whether such a question is open.
    pub open spec fn asked(self, tracker: Endpoint, kind: PendingKind) -> bool {
        exists|k: u32| #[trigger]
            self.pending.dom().contains(k) && self.pending[k].tracker == tracker
                && self.pending[k].kind == kind
    }
}

/// The next generation.
pub open spec fn next_generation(g: u64) -> u64 {
    if g == u64::MAX {
        0
    } else {
        (g + 1) as u64
    }
}

/// The id of nothing.
pub open spec fn zeros() -> Seq<u8> {
    Seq::new(20, |i: int| 0u8)
}

/// No search.
pub open spec fn at_rest(generation: u64) -> SearchView {
    SearchView {
        active: false,
        generation,
        room_id: zeros(),
        peer_id: zeros(),
        announce_secs: 0,
        slots: Seq::empty(),
        is_joiner: false,
        join_body: None,
        join_owner_hint: None,
        pending: Map::empty(),
        connections: Map::empty(),
        discovered: Map::empty(),
        listen_port: 0,
        had_join_announce_response: false,
    }
}

/// The request for a room, a peer and an owner.
pub struct SearchStart {
    pub room_id: [u8; 20],
    pub peer_id: [u8; 20],
    pub trackers: Vec<TrackerUrl>,
    pub announce_secs: u64,
    pub is_joiner: bool,
    pub join_body: Option<Vec<u8>>,
    pub join_owner_hint: Option<Endpoint>,
    pub listen_port: u16,
}

/// A search that begins.
pub open spec fn started(generation: u64, s: SearchStart) -> SearchView {
    let secs = if s.announce_secs < MIN_REANNOUNCE_SECS {
        MIN_REANNOUNCE_SECS
    } else {
        s.announce_secs
    };
    SearchView {
        active: true,
        generation: next_generation(generation),
        room_id: s.room_id@,
        peer_id: s.peer_id@,
        announce_secs: secs,
        slots: fresh_slots(url_views(s.trackers@), secs),
        is_joiner: s.is_joiner,
        join_body: body_of(s.join_body),
        join_owner_hint: s.join_owner_hint,
        pending: Map::empty(),
        connections: Map::empty(),
        discovered: Map::empty(),
        listen_port: s.listen_port,
        had_join_announce_response: false,
    }
}

/// The trackers to look up: their places, and the names and ports.
pub open spec fn lookups(slots: Seq<SlotView>) -> Seq<(int, Seq<char>)>
    decreases slots.len(),
{
    if slots.len() == 0 {
        Seq::empty()
    } else {
        let r = lookups(slots.drop_last());
        if slots.last().wants_lookup() {
            r.push((slots.len() - 1, slots.last().lookup->0))
        } else {
            r
        }
    }
}

/// The same, as it is handed out.
pub open spec fn lookup_views(v: Seq<(usize, String)>) -> Seq<(int, Seq<char>)> {
    Seq::new(v.len(), |i: int| (v[i].0 as int, v[i].1@))
}

/// The trackers while their names are looked up.
pub open spec fn looking_up(slots: Seq<SlotView>) -> Seq<SlotView> {
    Seq::new(
        slots.len(),
        |i: int|
            if slots[i].wants_lookup() {
                SlotView { resolve_in_flight: true, ..slots[i] }
            } else {
                slots[i]
            },
    )
}

/// The trackers after what is overdue was given up.
pub open spec fn all_swept(slots: Seq<SlotView>, now: u64) -> Seq<SlotView> {
    Seq::new(slots.len(), |i: int| slots[i].http_swept(now))
}

/// How many requests over HTTP are under way.
pub open spec fn under_way(slots: Seq<SlotView>) -> int
    decreases slots.len(),
{
    if slots.len() == 0 {
        0
    } else {
        under_way(slots.drop_last()) + if slots.last().http_in_flight {
            1int
        } else {
            0
        }
    }
}

/// How many of the first `n` trackers get a request, where `busy` are under way.
pub open spec fn picked(slots: Seq<SlotView>, n: int, busy: int, secs: u64, now: u64) -> int
    decreases n,
{
    if n <= 0 {
        0
    } else {
        let before = picked(slots, n - 1, busy, secs, now);
        if busy + before < MAX_HTTP_IN_FLIGHT && slots[n - 1].wants_http(secs, now) {
            before + 1
        } else {
            before
        }
    }
}

/// The tracker at `i` gets a request.
pub open spec fn is_picked(slots: Seq<SlotView>, i: int, busy: int, secs: u64, now: u64) -> bool {
    busy + picked(slots, i, busy, secs, now) < MAX_HTTP_IN_FLIGHT && slots[i].wants_http(secs, now)
}

/// The trackers after requests were handed out to some of them.
pub open spec fn handed_out(slots: Seq<SlotView>, busy: int, secs: u64, now: u64) -> Seq<SlotView> {
    Seq::new(
        slots.len(),
        |i: int|
            if is_picked(slots, i, busy, secs, now) {
                SlotView { http_in_flight: true, http_in_flight_since: Some(now), ..slots[i] }
            } else {
                slots[i]
            },
    )
}

/// The requests for the first `n` trackers.
pub open spec fn work_list(
    v: SearchView,
    slots: Seq<SlotView>,
    n: int,
    busy: int,
    announce_port: u16,
    now: u64,
) -> Seq<WorkView>
    decreases n,
{
    if n <= 0 {
        Seq::empty()
    } else {
        let r = work_list(v, slots, n - 1, busy, announce_port, now);
        if is_picked(slots, n - 1, busy, v.announce_secs, now) {
            r.push(
                WorkView {
                    slot_idx: n - 1,
                    generation: v.generation,
                    tracker_url: slots[n - 1].url,
                    host: slots[n - 1].host,
                    port: slots[n - 1].port,
                    path: slots[n - 1].path,
                    room_id: v.room_id,
                    peer_id: v.peer_id,
                    announce_port,
                    wanted: WANTED_PEERS,
                },
            )
        } else {
            r
        }
    }
}

/// The requests, as they are handed out.
pub open spec fn work_views(v: Seq<HttpAnnounceWork>) -> Seq<WorkView> {
    Seq::new(v.len(), |i: int| v[i]@)
}

/// The endpoints, after trackers named some more.
pub open spec fn noted(m: Map<Endpoint, u64>, peers: Seq<Endpoint>, now: u64) -> Map<Endpoint, u64>
    decreases peers.len(),
{
    if peers.len() == 0 {
        m
    } else {
        noted(m, peers.drop_last(), now).insert(peers.last(), now)
    }
}

/// The interval that a tracker asks for, but not less than a minute.
pub open spec fn interval_of(secs: u32) -> u64 {
    if (secs as u64) < MIN_REANNOUNCE_SECS {
        MIN_REANNOUNCE_SECS
    } else {
        secs as u64
    }
}

/// After a tracker named peers: the event, and the search. `slot` is the tracker,
/// where it is one that is known.
pub open spec fn peers_named(
    v: SearchView,
    slot: Option<int>,
    url: Seq<char>,
    secs: u32,
    peers: Seq<Endpoint>,
    now: u64,
) -> (EventView, SearchView) {
    (
        EventView {
            tracker_url: url,
            announce: Some((peers, v.is_joiner && !v.had_join_announce_response)),
        },
        SearchView {
            slots: match slot {
                Some(i) => v.slots.update(
                    i,
                    SlotView {
                        server_interval_secs: interval_of(secs),
                        last_announce: Some(now),
                        ..v.slots[i]
                    },
                ),
                None => v.slots,
            },
            discovered: noted(v.discovered, peers, now),
            had_join_announce_response: v.had_join_announce_response || v.is_joiner,
            ..v
        },
    )
}

/// What becomes of an answer over HTTP: it counts only in the search in which it
/// was asked for.
pub open spec fn http_answered(
    v: SearchView,
    slot_idx: usize,
    generation: u64,
    url: Seq<char>,
    outcome: Option<(u32, Seq<Endpoint>)>,
    now: u64,
) -> (Option<EventView>, SearchView) {
    if !v.active || generation != v.generation || slot_idx >= v.slots.len() {
        (None, v)
    } else {
        let i = slot_idx as int;
        let v1 = SearchView {
            slots: v.slots.update(
                i,
                SlotView { http_in_flight: false, http_in_flight_since: None, ..v.slots[i] },
            ),
            ..v
        };
        match outcome {
            Some(o) => {
                let (event, v2) = peers_named(v1, Some(i), url, o.0, o.1, now);
                (Some(event), v2)
            },
            None => (None, v1),
        }
    }
}

/// The addresses of a tracker after some were looked up: those of version 4, each
/// once.
pub open spec fn with_addrs(old_addrs: Seq<Endpoint>, new: Seq<Endpoint>) -> Seq<Endpoint>
    decreases new.len(),
{
    if new.len() == 0 {
        old_addrs
    } else {
        let r = with_addrs(old_addrs, new.drop_last());
        if new.last().ip is V4 && !r.contains(new.last()) {
            r.push(new.last())
        } else {
            r
        }
    }
}

/// The first tracker with the address.
pub open spec fn is_slot_of(slots: Seq<SlotView>, ep: Endpoint, i: int) -> bool {
    &&& 0 <= i < slots.len()
    &&& slots[i].addrs.contains(ep)
    &&& forall|j: int| 0 <= j < i ==> !(#[trigger] slots[j]).addrs.contains(ep)
}

/// The first tracker with the address.
pub open spec fn slot_of(slots: Seq<SlotView>, ep: Endpoint) -> int {
    choose|i: int| is_slot_of(slots, ep, i)
}

/// The number of a question, in its answer.
pub open spec fn txn_of(data: Seq<u8>) -> u32 {
    wire::be32(data[4], data[5], data[6], data[7])
}

/// What becomes of a datagram: whether it is an answer, the event, and the search.
pub open spec fn answered(
    v: SearchView,
    from: Endpoint,
    data: Seq<u8>,
    connection: Option<u64>,
    announce: Option<(u32, Seq<Endpoint>)>,
    now: u64,
) -> (bool, Option<EventView>, SearchView) {
    let txn = txn_of(data);
    if !v.active || data.len() < SHORTEST_ANSWER || !v.pending.dom().contains(txn)
        || v.pending[txn].tracker != from {
        (false, None, v)
    } else {
        let i = slot_of(v.slots, from);
        let v1 = SearchView { pending: v.pending.remove(txn), ..v };
        match v.pending[txn].kind {
            PendingKind::Connect => match connection {
                Some(id) => (
                    true,
                    Some(EventView { tracker_url: v.slots[i].url, announce: None }),
                    SearchView {
                        connections: v.connections.insert(
                            from,
                            TrackerConn { id, made_at: now },
                        ),
                        ..v1
                    },
                ),
                None => (true, None, v1),
            },
            PendingKind::Announce => match announce {
                Some(a) => {
                    let (event, v2) = peers_named(v1, Some(i), v.slots[i].url, a.0, a.1, now);
                    (true, Some(event), v2)
                },
                None => (true, None, v1),
            },
        }
    }
}

/// What a tracker is sent, if `txn` is the number of the question, and the search
/// after that.
pub open spec fn slot_asked(
    v: SearchView,
    slot_idx: usize,
    announce_port: u16,
    txn: u32,
    now: u64,
) -> (SlotAction, SearchView) {
    let idle = (SlotAction::Idle, v);
    if slot_idx >= v.slots.len() {
        idle
    } else {
        let slot = v.slots[slot_idx as int];
        if slot.scheme != TrackerScheme::Udp || slot.current() is None || !slot.due(
            v.announce_secs,
            now,
        ) {
            idle
        } else {
            let to = slot.current()->0;
            if !v.connections.dom().contains(to) || v.connections[to].expired(now) {
                if v.asked(to, PendingKind::Connect) {
                    idle
                } else {
                    (
                        SlotAction::SendConnect { to, txn },
                        SearchView {
                            pending: v.pending.insert(
                                txn,
                                PendingOp { kind: PendingKind::Connect, tracker: to, created: now },
                            ),
                            ..v
                        },
                    )
                }
            } else if v.asked(to, PendingKind::Announce) {
                idle
            } else {
                (
                    SlotAction::SendAnnounce {
                        to,
                        txn,
                        connection: v.connections[to].id,
                        announce_port,
                    },
                    SearchView {
                        pending: v.pending.insert(
                            txn,
                            PendingOp { kind: PendingKind::Announce, tracker: to, created: now },
                        ),
                        ..v
                    },
                )
            }
        }
    }
}

/// The search after a question could not be sent.
pub open spec fn not_sent(v: SearchView, slot_idx: usize, action: SlotAction) -> SearchView {
    let slots = if slot_idx < v.slots.len() {
        v.slots.update(slot_idx as int, v.slots[slot_idx as int].rotated())
    } else {
        v.slots
    };
    match action {
        SlotAction::Idle => v,
        SlotAction::SendConnect { to, txn } => SearchView {
            pending: v.pending.remove(txn),
            slots,
            ..v
        },
        SlotAction::SendAnnounce { to, txn, connection, announce_port } => SearchView {
            pending: v.pending.remove(txn),
            connections: v.connections.remove(to),
            slots,
            ..v
        },
    }
}

/// The questions that an answer can still come to.
pub open spec fn fresh_pending(m: Map<u32, PendingOp>, now: u64) -> Map<u32, PendingOp> {
    m.restrict(
        Set::new(
            |k: u32|
                m.dom().contains(k) && engine_state::elapsed(now, m[k].created) < PENDING_TTL,
        ),
    )
}

/// The endpoint was named a short time ago.
pub open spec fn still_known(m: Map<Endpoint, u64>, now: u64, e: Endpoint) -> bool {
    m.dom().contains(e) && engine_state::elapsed(now, m[e]) < DISCOVERED_TTL
}

/// The endpoints that were named a short time ago.
pub open spec fn known(m: Map<Endpoint, u64>, now: u64) -> Map<Endpoint, u64> {
    m.restrict(Set::new(|e: Endpoint| still_known(m, now, e)))
}

/// `after` has the endpoints that were named a short time ago; where these are too
/// many, as many of them as allowed, and none that was named before one that is
/// left out.
pub open spec fn pruned(before: Map<Endpoint, u64>, after: Map<Endpoint, u64>, now: u64) -> bool {
    let live = known(before, now);
    &&& after.submap_of(live)
    &&& live.dom().len() <= MAX_DISCOVERED ==> after == live
    &&& live.dom().len() > MAX_DISCOVERED ==> after.dom().len() == MAX_DISCOVERED
    &&& forall|a: Endpoint, b: Endpoint| #[trigger]
        live.dom().contains(a) && !after.dom().contains(a) && #[trigger] after.dom().contains(b)
            ==> live[a] <= after[b]
}

/// `v` has the endpoints but the own one, the one that was named last first.
pub open spec fn newest_first(
    v: Seq<Endpoint>,
    m: Map<Endpoint, u64>,
    own: Option<Endpoint>,
) -> bool {
    &&& punch_targets::no_twice(v)
    &&& forall|e: Endpoint| #[trigger]
        v.contains(e) <==> m.dom().contains(e) && own != Some(e)
    &&& forall|i: int, j: int|
        0 <= i < j < v.len() ==> m[#[trigger] v[i]] >= m[#[trigger] v[j]]
}

/// The endpoints to try: those that were named last, and the owner's.
pub open spec fn exact(v: Seq<Endpoint>, hint: Option<Endpoint>) -> Seq<Endpoint> {
    let t = punch_targets::at_most(v, MAX_PUNCH_TARGETS as int);
    match hint {
        Some(h) => if t.contains(h) {
            t
        } else {
            t.push(h)
        },
        None => t,
    }
}

/// `targets` are the endpoints to try, where `m` are known.
pub open spec fn exact_done(
    targets: Seq<Endpoint>,
    m: Map<Endpoint, u64>,
    own: Option<Endpoint>,
    hint: Option<Endpoint>,
) -> bool {
    exists|v: Seq<Endpoint>| #[trigger] newest_first(v, m, own) && targets == exact(v, hint)
}

/// To whom join requests go: the owner first.
pub open spec fn fan(hint: Option<Endpoint>, targets: Seq<Endpoint>) -> Seq<Endpoint> {
    let first = match hint {
        Some(h) => seq![h],
        None => Seq::empty(),
    };
    punch_targets::at_most(
        punch_targets::firsts(first + targets),
        MAX_FANOUT_MPJN_PER_TICK as int,
    )
}

/// The join requests: to whom, and the body.
pub open spec fn fan_views(v: Seq<(Endpoint, Vec<u8>)>) -> Seq<(Endpoint, Seq<u8>)> {
    Seq::new(v.len(), |i: int| (v[i].0, v[i].1@))
}

/// What is to be done after a tick, if these are the endpoints to try.
pub open spec fn tick_result(
    v: SearchView,
    targets: Seq<Endpoint>,
    join_pending: bool,
) -> (Seq<Endpoint>, Seq<(Endpoint, Seq<u8>)>) {
    let f = fan(v.join_owner_hint, targets);
    (
        if targets.len() == 0 {
            Seq::empty()
        } else {
            punch_targets::expanded_targets(
                targets,
                v.join_owner_hint,
                SYMMETRIC_SCAN_WIDTH_OWNER_HINT as int,
                SYMMETRIC_SCAN_WIDTH as int,
                MAX_EXPANDED_PUNCH_TARGETS as int,
            )
        },
        if v.is_joiner && join_pending && v.join_body is Some {
            Seq::new(f.len(), |i: int| (f[i], v.join_body->0))
        } else {
            Seq::empty()
        },
    )
}

impl Default for DecentralizedState {
    fn default() -> (out: Self)
        ensures
            out.wf(),
            out@ == at_rest(0),
    {
        DecentralizedState::resting(0)
    }
}

impl DecentralizedState {
    pub open spec fn wf(&self) -> bool {
        &&& self.pending.wf()
        &&& self.connections.wf()
        &&& self.discovered.wf()
        &&& self@.wf()
    }

    fn resting(generation: u64) -> (out: Self)
        ensures
            out.wf(),
            out@ == at_rest(generation),
    {
        let out = DecentralizedState {
            active: false,
            generation,
            room_id: [0u8;20],
            peer_id: [0u8;20],
            announce_secs: 0,
            slots: Vec::new(),
            is_joiner: false,
            join_body: None,
            join_owner_hint: None,
            pending: Table::new(),
            connections: Table::new(),
            discovered: Table::new(),
            listen_port: 0,
            had_join_announce_response: false,
        };
        proof {
            assert(out.room_id@ =~= zeros());
            assert(out.peer_id@ =~= zeros());
            assert(out@ =~= at_rest(generation));
        }
        out
    }

    fn following(generation: u64) -> (out: u64)
        ensures
            out == next_generation(generation),
    {
        if generation == u64::MAX {
            0
        } else {
            generation + 1
        }
    }

    /// Begins a search.
    pub fn start(&mut self, request: SearchStart)
        requires
            old(self).wf(),
        ensures
            final(self).wf(),
            final(self)@ == started(old(self).generation, request),
    {
        let generation: u64 = DecentralizedState::following(self.generation);
        let secs: u64 = if request.announce_secs < MIN_REANNOUNCE_SECS {
            MIN_REANNOUNCE_SECS
        } else {
            request.announce_secs
        };
        let ghost want = started(self.generation, request);
        let ghost urls = url_views(request.trackers@);
        let slots: Vec<TrackerSlot> = new_slots(request.trackers, secs);
        proof {
            all_fresh(urls, secs);
        }
        *self = DecentralizedState {
            active: true,
            generation,
            room_id: request.room_id,
            peer_id: request.peer_id,
            announce_secs: secs,
            slots,
            is_joiner: request.is_joiner,
            join_body: request.join_body,
            join_owner_hint: request.join_owner_hint,
            pending: Table::new(),
            connections: Table::new(),
            discovered: Table::new(),
            listen_port: request.listen_port,
            had_join_announce_response: false,
        };
        proof {
            assert(self@ =~= want);
        }
    }

    /// Ends the search.
    pub fn stop(&mut self)
        requires
            old(self).wf(),
        ensures
            final(self).wf(),
            final(self)@ == at_rest(next_generation(old(self).generation)),
    {
        let generation: u64 = DecentralizedState::following(self.generation);
        *self = DecentralizedState::resting(generation);
    }

    pub fn generation(&self) -> (out: u64)
        ensures
            out == self@.generation,
    {
        self.generation
    }

    /// The port that trackers are told.
    pub fn announce_port(&self, self_public_ep: Option<Endpoint>) -> (out: u16)
        ensures
            out == match self_public_ep {
                Some(e) => e.port,
                None => self@.listen_port,
            },
    {
        match self_public_ep {
            Some(e) => e.port,
            None => self.listen_port,
        }
    }

    pub fn is_active(&self) -> (b: bool)
        ensures
            b == self@.active,
    {
        self.active
    }

    pub fn is_joiner(&self) -> (b: bool)
        ensures
            b == self@.is_joiner,
    {
        self.is_joiner
    }

    pub fn set_joiner_active(&mut self, active: bool)
        requires
            old(self).wf(),
        ensures
            final(self).wf(),
            final(self)@ == (SearchView { is_joiner: active, ..old(self)@ }),
    {
        self.is_joiner = active;
    }

    pub fn join_owner_hint(&self) -> (out: Option<Endpoint>)
        ensures
            out == self@.join_owner_hint,
    {
        self.join_owner_hint
    }

    /// The endpoints that trackers named, each once.
    pub fn discovered_endpoints(&self) -> (out: Vec<Endpoint>)
        requires
            self.wf(),
        ensures
            punch_targets::no_twice(out@),
            forall|e: Endpoint| #[trigger] out@.contains(e) <==> self@.discovered.dom().contains(e),
    {
        let ghost s = self.discovered.entries@;
        let mut out: Vec<Endpoint> = Vec::new();
        let mut i: usize = 0;
        while i < self.discovered.entries.len()
            invariant
                s == self.discovered.entries@,
                i <= s.len(),
                out@.len() == i,
                forall|j: int| 0 <= j < i ==> #[trigger] out@[j] == s[j].0,
            decreases s.len() - i,
        {
            out.push(self.discovered.entries[i].0);
            i += 1;
        }
        proof {
            assert forall|a: int, b: int| 0 <= a < b < out@.len() implies #[trigger] out@[a]
                != #[trigger] out@[b] by {
                assert(s[a].0.id() != s[b].0.id());
            }
            assert forall|e: Endpoint| #[trigger] out@.contains(e) <==> table::has_key(s, e) by {
                if out@.contains(e) {
                    let j = choose|j: int| 0 <= j < out@.len() && out@[j] == e;
                    assert(table::key_at(s, e, j));
                }
                if table::has_key(s, e) {
                    let j = choose|j: int| table::key_at(s, e, j);
                    assert(out@[j] == e);
                }
            }
        }
        out
    }

    /// Which names are to be looked up; they count as under way from now on.
    pub fn take_pending_resolves(&mut self) -> (out: Vec<(usize, String)>)
        requires
            old(self).wf(),
        ensures
            final(self).wf(),
            old(self).active ==> lookup_views(out@) == lookups(old(self)@.slots) && final(self)@ == (
            SearchView { slots: looking_up(old(self)@.slots), ..old(self)@ }),
            !old(self).active ==> out@.len() == 0 && final(self)@ == old(self)@,
    {
        let ghost v0 = self@;
        let mut out: Vec<(usize, String)> = Vec::new();
        if !self.active {
            return out;
        }
        let ghost want = looking_up(v0.slots);
        let mut idx: usize = 0;
        proof {
            assert(lookup_views(out@) =~= lookups(v0.slots.take(0)));
            assert(want.take(0) + v0.slots.skip(0) =~= self@.slots);
        }
        while idx < self.slots.len()
            invariant
                self.pending.wf(),
                self.connections.wf(),
                self.discovered.wf(),
                want == looking_up(v0.slots),
                idx <= v0.slots.len(),
                self.slots@.len() == v0.slots.len(),
                self@ == (SearchView { slots: self@.slots, ..v0 }),
                self@.slots == want.take(idx as int) + v0.slots.skip(idx as int),
                lookup_views(out@) == lookups(v0.slots.take(idx as int)),
            decreases v0.slots.len() - idx,
        {
            let ghost before = self.slots@;
            let ghost slot = v0.slots[idx as int];
            proof {
                assert(self@.slots[idx as int] == slot);
                assert(v0.slots.take(idx + 1).drop_last() =~= v0.slots.take(idx as int));
            }
            let wants: bool = self.slots[idx].is_udp() && self.slots[idx].addrs.len() == 0
                && !self.slots[idx].resolve_in_flight;
            let name: Option<String> = if wants {
                match &self.slots[idx].lookup {
                    Some(name) => Some(name.clone()),
                    None => None,
                }
            } else {
                None
            };
            let ghost listed = lookup_views(out@);
            if let Some(name) = name {
                self.slots[idx].resolve_in_flight = true;
                let ghost n = name@;
                out.push((idx, name));
                proof {
                    assert(lookup_views(out@) =~= listed.push((idx as int, n)));
                }
            }
            proof {
                let after = want.take(idx + 1) + v0.slots.skip(idx + 1);
                assert forall|i: int| 0 <= i < self@.slots.len() implies self@.slots[i]
                    == after[i] by {
                    if i == idx {
                        assert(self.slots@[i]@ == want[i]);
                    } else {
                        assert(self.slots@[i] == before[i]);
                        assert(slot_views(before)[i] == after[i]);
                    }
                }
                assert(self@.slots =~= after);
            }
            idx += 1;
        }
        proof {
            assert(v0.slots.take(v0.slots.len() as int) =~= v0.slots);
            assert(self@.slots =~= want);
            same_addrs(v0, self@);
        }
        out
    }
}

/// The trackers whose addresses can be read, up to the limit.
fn new_slots(urls: Vec<TrackerUrl>, secs: u64) -> (out: Vec<TrackerSlot>)
    ensures
        slot_views(out@) == fresh_slots(url_views(urls@), secs),
{
    let ghost all = url_views(urls@);
    let ghost given = urls@;
    let mut rest: Vec<TrackerUrl> = urls;
    let mut out: Vec<TrackerSlot> = Vec::new();
    let ghost mut n: int = 0;
    proof {
        assert(slot_views(out@) =~= fresh_slots(all.take(0), secs));
        assert(rest@ =~= given.skip(0));
    }
    while rest.len() > 0
        invariant
            0 <= n <= given.len(),
            all == url_views(given),
            rest@ == given.skip(n),
            slot_views(out@) == fresh_slots(all.take(n), secs),
        decreases rest@.len(),
    {
        let url = rest.remove(0);
        let ghost before = slot_views(out@);
        proof {
            assert(url == given[n]);
            assert(all.take(n + 1).drop_last() =~= all.take(n));
            assert(all.take(n + 1).last() == url_view(url));
            assert(rest@ =~= given.skip(n + 1));
            assert(before.len() == out@.len());
        }
        if let Some(slot) = TrackerSlot::try_new(url, secs) {
            if out.len() < MAX_ACTIVE_TRACKERS {
                let ghost sv = slot@;
                out.push(slot);
                proof {
                    assert(slot_views(out@) =~= before.push(sv));
                }
            }
        }
        proof {
            n = n + 1;
        }
    }
    proof {
        assert(all.take(n) =~= all);
    }
    out
}

/// A new tracker is in order.
proof fn all_fresh(urls: Seq<UrlView>, secs: u64)
    ensures
        forall|i: int|
            0 <= i < fresh_slots(urls, secs).len() ==> (#[trigger] fresh_slots(urls, secs)[i]).wf(),
    decreases urls.len(),
{
    if urls.len() > 0 {
        all_fresh(urls.drop_last(), secs);
        let r = fresh_slots(urls.drop_last(), secs);
        let f = fresh_slots(urls, secs);
        assert forall|i: int| 0 <= i < f.len() implies (#[trigger] f[i]).wf() by {
            if i < r.len() {
                assert(r[i].wf());
            }
        }
    }
}

/// What only changes other things of the trackers than their addresses keeps the
/// search in order.
proof fn same_addrs(a: SearchView, b: SearchView)
    requires
        a.wf(),
        a.slots.len() == b.slots.len(),
        b.pending.submap_of(a.pending),
        forall|i: int|
            0 <= i < a.slots.len() ==> (#[trigger] b.slots[i]).addrs == a.slots[i].addrs
                && b.slots[i].wf(),
    ensures
        b.wf(),
{
    assert forall|k: u32| #[trigger] b.pending.dom().contains(k) implies of_a_tracker(
        b.slots,
        b.pending[k].tracker,
    ) by {
        assert(a.pending.dom().contains(k));
        let i = choose|i: int|
            0 <= i < a.slots.len() && (#[trigger] a.slots[i]).addrs.contains(a.pending[k].tracker);
        assert(b.slots[i].addrs.contains(b.pending[k].tracker));
    }
    assert forall|x: u32, y: u32| #[trigger]
        b.pending.dom().contains(x) && #[trigger] b.pending.dom().contains(y) && x
            != y implies !(b.pending[x].tracker == b.pending[y].tracker && b.pending[x].kind
        == b.pending[y].kind) by {
        assert(a.pending.dom().contains(x) && a.pending.dom().contains(y));
    }
}

impl DecentralizedState {
    /// Gives up what is overdue.
    fn sweep_expired_http_inflight(&mut self, now: u64)
        requires
            old(self).wf(),
        ensures
            final(self).wf(),
            final(self)@ == (SearchView { slots: all_swept(old(self)@.slots, now), ..old(self)@ }),
    {
        let ghost v0 = self@;
        let ghost want = all_swept(v0.slots, now);
        let mut idx: usize = 0;
        proof {
            assert(want.take(0) + v0.slots.skip(0) =~= self@.slots);
        }
        while idx < self.slots.len()
            invariant
                self.pending.wf(),
                self.connections.wf(),
                self.discovered.wf(),
                want == all_swept(v0.slots, now),
                idx <= v0.slots.len(),
                self.slots@.len() == v0.slots.len(),
                self@ == (SearchView { slots: self@.slots, ..v0 }),
                self@.slots == want.take(idx as int) + v0.slots.skip(idx as int),
            decreases v0.slots.len() - idx,
        {
            let ghost before = self.slots@;
            proof {
                assert(self@.slots[idx as int] == v0.slots[idx as int]);
            }
            if self.slots[idx].http_in_flight {
                let stale: bool = match self.slots[idx].http_in_flight_since {
                    Some(t) => since(now, t) >= HTTP_PENDING_TTL,
                    None => true,
                };
                if stale {
                    self.slots[idx].http_in_flight = false;
                    self.slots[idx].http_in_flight_since = None;
                }
            }
            proof {
                let after = want.take(idx + 1) + v0.slots.skip(idx + 1);
                one_slot_changed(before, self.slots@, idx as int, after);
            }
            idx += 1;
        }
        proof {
            assert(self@.slots =~= want);
            same_addrs(v0, self@);
        }
    }

    /// The requests over HTTP that are due; they count as under way from now on.
    pub fn take_pending_http_announces(&mut self, announce_port: u16, now: u64) -> (out: Vec<
        HttpAnnounceWork,
    >)
        requires
            old(self).wf(),
        ensures
            final(self).wf(),
            !old(self).active ==> out@.len() == 0 && final(self)@ == old(self)@,
            old(self).active ==> ({
                let swept = all_swept(old(self)@.slots, now);
                let busy = under_way(swept);
                &&& final(self)@ == (SearchView {
                    slots: handed_out(swept, busy, old(self)@.announce_secs, now),
                    ..old(self)@
                })
                &&& work_views(out@) == work_list(
                    old(self)@,
                    swept,
                    swept.len() as int,
                    busy,
                    announce_port,
                    now,
                )
            }),
    {
        let mut out: Vec<HttpAnnounceWork> = Vec::new();
        if !self.active {
            return out;
        }
        let ghost vstart = self@;
        self.sweep_expired_http_inflight(now);
        let ghost v0 = self@;
        let ghost swept = v0.slots;
        let busy: usize = self.count_under_way();
        let secs: u64 = self.announce_secs;
        let ghost want = handed_out(swept, busy as int, secs, now);
        let mut in_flight: usize = busy;
        let mut idx: usize = 0;
        proof {
            assert(want.take(0) + swept.skip(0) =~= self@.slots);
            assert(work_views(out@) =~= work_list(v0, swept, 0, busy as int, announce_port, now));
        }
        while idx < self.slots.len()
            invariant
                self.pending.wf(),
                self.connections.wf(),
                self.discovered.wf(),
                secs == self.announce_secs,
                swept == v0.slots,
                want == handed_out(swept, busy as int, secs, now),
                idx <= swept.len(),
                busy <= swept.len(),
                in_flight == busy + picked(swept, idx as int, busy as int, secs, now),
                in_flight <= busy + idx,
                self.slots@.len() == swept.len(),
                self@ == (SearchView { slots: self@.slots, ..v0 }),
                self@.slots == want.take(idx as int) + swept.skip(idx as int),
                work_views(out@) == work_list(
                    v0,
                    swept,
                    idx as int,
                    busy as int,
                    announce_port,
                    now,
                ),
            decreases swept.len() - idx,
        {
            let ghost before = self.slots@;
            proof {
                assert(self@.slots[idx as int] == swept[idx as int]);
            }
            let ghost listed = work_views(out@);
            if in_flight < MAX_HTTP_IN_FLIGHT && self.slots[idx].is_http()
                && !self.slots[idx].http_in_flight && self.slots[idx].announce_due(secs, now) {
                self.slots[idx].http_in_flight = true;
                self.slots[idx].http_in_flight_since = Some(now);
                in_flight += 1;
                let work = HttpAnnounceWork {
                    slot_idx: idx,
                    generation: self.generation,
                    tracker_url: self.slots[idx].url.clone(),
                    host: self.slots[idx].host.clone(),
                    port: self.slots[idx].port,
                    path: self.slots[idx].path.clone(),
                    room_id: self.room_id,
                    peer_id: self.peer_id,
                    announce_port,
                    wanted: WANTED_PEERS,
                };
                let ghost w = work@;
                out.push(work);
                proof {
                    assert(work_views(out@) =~= listed.push(w));
                }
            }
            proof {
                let after = want.take(idx + 1) + swept.skip(idx + 1);
                one_slot_changed(before, self.slots@, idx as int, after);
            }
            idx += 1;
        }
        proof {
            assert(self@.slots =~= want);
            same_addrs(v0, self@);
            same_work(vstart, v0, swept, swept.len() as int, busy as int, announce_port, now);
        }
        out
    }

    /// How many requests over HTTP are under way.
    fn count_under_way(&self) -> (n: usize)
        ensures
            n == under_way(self@.slots),
            n <= self@.slots.len(),
    {
        let ghost slots = self@.slots;
        let mut n: usize = 0;
        let mut i: usize = 0;
        proof {
            assert(slots.take(0) =~= Seq::<SlotView>::empty());
        }
        while i < self.slots.len()
            invariant
                slots == self@.slots,
                i <= slots.len(),
                slots.len() == self.slots@.len(),
                n <= i,
                n == under_way(slots.take(i as int)),
            decreases slots.len() - i,
        {
            proof {
                assert(slots.take(i + 1).drop_last() =~= slots.take(i as int));
                assert(slots.take(i + 1).last() == self.slots@[i as int]@);
            }
            if self.slots[i].http_in_flight {
                n += 1;
            }
            i += 1;
        }
        proof {
            assert(slots.take(slots.len() as int) =~= slots);
        }
        n
    }

    /// Remembers endpoints that a tracker named.
    fn note_all(&mut self, peers: &Vec<Endpoint>, now: u64)
        requires
            old(self).wf(),
        ensures
            final(self).wf(),
            final(self)@ == (SearchView {
                discovered: noted(old(self)@.discovered, peers@, now),
                ..old(self)@
            }),
    {
        let ghost v0 = self@;
        let mut i: usize = 0;
        proof {
            assert(peers@.take(0) =~= Seq::<Endpoint>::empty());
        }
        while i < peers.len()
            invariant
                i <= peers@.len(),
                self.wf(),
                self@ == (SearchView {
                    discovered: noted(v0.discovered, peers@.take(i as int), now),
                    ..v0
                }),
            decreases peers@.len() - i,
        {
            proof {
                assert(peers@.take(i + 1).drop_last() =~= peers@.take(i as int));
            }
            self.note_discovered(peers[i], now);
            i += 1;
        }
        proof {
            assert(peers@.take(peers@.len() as int) =~= peers@);
        }
    }

    /// Remembers an endpoint.
    pub fn note_discovered(&mut self, ep: Endpoint, now: u64)
        requires
            old(self).wf(),
        ensures
            final(self).wf(),
            final(self)@ == (SearchView {
                discovered: old(self)@.discovered.insert(ep, now),
                ..old(self)@
            }),
    {
        let ghost v0 = self@;
        self.discovered.insert(ep, now);
        proof {
            same_addrs(v0, self@);
        }
    }

    /// Takes in the peers that the tracker at `idx` named.
    fn take_peers(
        &mut self,
        idx: usize,
        url: String,
        secs: u32,
        peers: Vec<Endpoint>,
        now: u64,
    ) -> (event: TrackerDatagramEvent)
        requires
            old(self).wf(),
            idx < old(self)@.slots.len(),
        ensures
            final(self).wf(),
            (event@, final(self)@) == peers_named(
                old(self)@,
                Some(idx as int),
                url@,
                secs,
                peers@,
                now,
            ),
    {
        let ghost v0 = self@;
        let ghost want = peers_named(v0, Some(idx as int), url@, secs, peers@, now);
        let ghost before = self.slots@;
        self.slots[idx].server_interval_secs = if (secs as u64) < MIN_REANNOUNCE_SECS {
            MIN_REANNOUNCE_SECS
        } else {
            secs as u64
        };
        self.slots[idx].last_announce = Some(now);
        proof {
            one_slot_changed(before, self.slots@, idx as int, want.1.slots);
            same_addrs(v0, self@);
        }
        self.note_all(&peers, now);
        let first: bool = self.is_joiner && !self.had_join_announce_response;
        if self.is_joiner {
            self.had_join_announce_response = true;
        }
        proof {
            assert(self@ =~= want.1);
        }
        TrackerDatagramEvent {
            tracker_url: url,
            announce: Some(AnnounceInfo { peers, first_announce_in_join: first }),
        }
    }

    /// Takes in what became of a request over HTTP.
    pub fn apply_http_announce_result(&mut self, result: HttpAnnounceResult, now: u64) -> (out:
        Option<TrackerDatagramEvent>)
        requires
            old(self).wf(),
        ensures
            final(self).wf(),
            (event_view(out), final(self)@) == http_answered(
                old(self)@,
                result.slot_idx,
                result.generation,
                result.tracker_url@,
                outcome_view(result.outcome),
                now,
            ),
    {
        let ghost v0 = self@;
        if !self.active || result.generation != self.generation {
            return None;
        }
        let idx: usize = result.slot_idx;
        if idx >= self.slots.len() {
            return None;
        }
        let ghost before = self.slots@;
        self.slots[idx].http_in_flight = false;
        self.slots[idx].http_in_flight_since = None;
        proof {
            let after = v0.slots.update(
                idx as int,
                SlotView {
                    http_in_flight: false,
                    http_in_flight_since: None,
                    ..v0.slots[idx as int]
                },
            );
            one_slot_changed(before, self.slots@, idx as int, after);
            same_addrs(v0, self@);
        }
        match result.outcome {
            Ok(o) => Some(self.take_peers(idx, result.tracker_url, o.0, o.1, now)),
            Err(_) => None,
        }
    }

    /// The name of a tracker is no longer looked up.
    pub fn clear_resolve_in_flight(&mut self, slot_idx: usize)
        requires
            old(self).wf(),
        ensures
            final(self).wf(),
            final(self)@ == if slot_idx < old(self)@.slots.len() {
                SearchView {
                    slots: old(self)@.slots.update(
                        slot_idx as int,
                        SlotView {
                            resolve_in_flight: false,
                            ..old(self)@.slots[slot_idx as int]
                        },
                    ),
                    ..old(self)@
                }
            } else {
                old(self)@
            },
    {
        let ghost v0 = self@;
        if slot_idx < self.slots.len() {
            let ghost before = self.slots@;
            self.slots[slot_idx].resolve_in_flight = false;
            proof {
                let after = v0.slots.update(
                    slot_idx as int,
                    SlotView { resolve_in_flight: false, ..v0.slots[slot_idx as int] },
                );
                one_slot_changed(before, self.slots@, slot_idx as int, after);
                same_addrs(v0, self@);
            }
        }
    }

    /// Takes in the addresses of a tracker.
    pub fn add_resolved_addrs(&mut self, slot_idx: usize, addrs: Vec<Endpoint>)
        requires
            old(self).wf(),
        ensures
            final(self).wf(),
            final(self)@ == if slot_idx < old(self)@.slots.len() {
                SearchView {
                    slots: old(self)@.slots.update(
                        slot_idx as int,
                        SlotView {
                            addrs: with_addrs(
                                old(self)@.slots[slot_idx as int].addrs,
                                addrs@,
                            ),
                            ..old(self)@.slots[slot_idx as int]
                        },
                    ),
                    ..old(self)@
                }
            } else {
                old(self)@
            },
    {
        let ghost v0 = self@;
        if slot_idx >= self.slots.len() {
            return;
        }
        let ghost at = slot_idx as int;
        let ghost had = v0.slots[at].addrs;
        let ghost before = self.slots@;
        let mut all: Vec<Endpoint> = Vec::new();
        let mut k: usize = 0;
        while k < self.slots[slot_idx].addrs.len()
            invariant
                slot_idx < self.slots@.len(),
                self.slots@ == before,
                had == before[slot_idx as int].addrs@,
                k <= had.len(),
                all@ == had.take(k as int),
            decreases had.len() - k,
        {
            all.push(self.slots[slot_idx].addrs[k]);
            proof {
                assert(had.take(k + 1) =~= had.take(k as int).push(had[k as int]));
            }
            k += 1;
        }
        proof {
            assert(had.take(had.len() as int) =~= had);
            assert(addrs@.take(0) =~= Seq::<Endpoint>::empty());
        }
        let mut i: usize = 0;
        while i < addrs.len()
            invariant
                i <= addrs@.len(),
                all@ == with_addrs(had, addrs@.take(i as int)),
            decreases addrs@.len() - i,
        {
            let a: Endpoint = addrs[i];
            proof {
                assert(addrs@.take(i + 1).drop_last() =~= addrs@.take(i as int));
            }
            let v4: bool = match a.ip {
                IpAddr::V4(_) => true,
                IpAddr::V6(_, _) => false,
            };
            if v4 && !has_endpoint(&all, a) {
                all.push(a);
            }
            i += 1;
        }
        proof {
            assert(addrs@.take(addrs@.len() as int) =~= addrs@);
            addrs_stay(had, addrs@);
        }
        self.slots[slot_idx].addrs = all;
        proof {
            let after = v0.slots.update(
                at,
                SlotView { addrs: with_addrs(had, addrs@), ..v0.slots[at] },
            );
            one_slot_changed(before, self.slots@, at, after);
            assert(v0.slots[at].wf());
            assert forall|x: int| 0 <= x < self@.slots.len() implies (
            #[trigger] self@.slots[x]).wf() by {
                assert(v0.slots[x].wf());
            }
            assert forall|q: u32| #[trigger] self@.pending.dom().contains(q) implies of_a_tracker(
                self@.slots,
                self@.pending[q].tracker,
            ) by {
                let t = v0.pending[q].tracker;
                let x = choose|x: int|
                    0 <= x < v0.slots.len() && (#[trigger] v0.slots[x]).addrs.contains(t);
                assert(self@.slots[x].addrs.contains(t));
            }
        }
    }

    /// The first tracker with the address.
    fn slot_index_for_tracker_addr(&self, ep: Endpoint) -> (out: Option<usize>)
        ensures
            match out {
                Some(i) => is_slot_of(self@.slots, ep, i as int) && i == slot_of(self@.slots, ep),
                None => !of_a_tracker(self@.slots, ep),
            },
    {
        let ghost slots = self@.slots;
        let mut i: usize = 0;
        while i < self.slots.len()
            invariant
                slots == self@.slots,
                slots.len() == self.slots@.len(),
                i <= slots.len(),
                forall|j: int| 0 <= j < i ==> !(#[trigger] slots[j]).addrs.contains(ep),
            decreases slots.len() - i,
        {
            proof {
                assert(slots[i as int].addrs == self.slots@[i as int].addrs@);
            }
            if has_endpoint(&self.slots[i].addrs, ep) {
                proof {
                    assert(is_slot_of(slots, ep, i as int));
                    let k = slot_of(slots, ep);
                    assert(is_slot_of(slots, ep, k));
                    if k < i {
                        assert(!slots[k].addrs.contains(ep));
                    }
                    if i < k {
                        assert(!slots[i as int].addrs.contains(ep));
                    }
                }
                return Some(i);
            }
            i += 1;
        }
        None
    }

    /// Takes in a datagram. `answer` is what it says, read as each of the two
    /// answers that a tracker gives.
    pub fn handle_datagram(
        &mut self,
        from: Endpoint,
        data: &[u8],
        answer: TrackerAnswer,
        now: u64,
    ) -> (out: DatagramHandleResult)
        requires
            old(self).wf(),
        ensures
            final(self).wf(),
            (out.handled, event_view(out.event), final(self)@) == answered(
                old(self)@,
                from,
                data@,
                answer.connection,
                announce_view(answer.announce),
                now,
            ),
    {
        let ghost v0 = self@;
        if !self.active || data.len() < SHORTEST_ANSWER {
            return DatagramHandleResult { handled: false, event: None };
        }
        let txn: u32 = be_u32_at(data, 4);
        let op: PendingOp = match self.pending.get(&txn) {
            Some(op) => *op,
            None => {
                return DatagramHandleResult { handled: false, event: None };
            },
        };
        if op.tracker != from {
            return DatagramHandleResult { handled: false, event: None };
        }
        let idx: usize = match self.slot_index_for_tracker_addr(from) {
            Some(i) => i,
            None => {
                proof {
                    assert(of_a_tracker(v0.slots, v0.pending[txn].tracker));
                }
                0
            },
        };
        let _ = self.pending.remove(&txn);
        let ghost v1 = self@;
        proof {
            assert(v1 =~= (SearchView { pending: v0.pending.remove(txn), ..v0 }));
            assert forall|i: int| 0 <= i < v0.slots.len() implies (#[trigger] v1.slots[i]).addrs
                == v0.slots[i].addrs && v1.slots[i].wf() by {
                assert(v0.slots[i].wf());
            }
            same_addrs(v0, v1);
        }
        let url: String = self.slots[idx].url.clone();
        match op.kind {
            PendingKind::Connect => match answer.connection {
                Some(id) => {
                    self.connections.insert(
                        from,
                        TrackerConn { id, made_at: now },
                    );
                    proof {
                        same_addrs(v1, self@);
                    }
                    DatagramHandleResult {
                        handled: true,
                        event: Some(TrackerDatagramEvent { tracker_url: url, announce: None }),
                    }
                },
                None => DatagramHandleResult { handled: true, event: None },
            },
            PendingKind::Announce => match answer.announce {
                Some(a) => {
                    let event = self.take_peers(idx, url, a.0, a.1, now);
                    DatagramHandleResult { handled: true, event: Some(event) }
                },
                None => DatagramHandleResult { handled: true, event: None },
            },
        }
    }
}

/// An event that may be missing.
pub open spec fn event_view(e: Option<TrackerDatagramEvent>) -> Option<EventView> {
    match e {
        Some(x) => Some(x@),
        None => None,
    }
}

/// The interval and the peers, if there was an answer.
pub open spec fn outcome_view(r: Result<(u32, Vec<Endpoint>), String>) -> Option<
    (u32, Seq<Endpoint>),
> {
    match r {
        Ok(o) => Some((o.0, o.1@)),
        Err(_) => None,
    }
}

/// The interval and the peers, if there was an answer.
pub open spec fn announce_view(r: Option<(u32, Vec<Endpoint>)>) -> Option<(u32, Seq<Endpoint>)> {
    match r {
        Some(o) => Some((o.0, o.1@)),
        None => None,
    }
}

/// Where one tracker changed, the views are as told.
proof fn one_slot_changed(
    before: Seq<TrackerSlot>,
    now: Seq<TrackerSlot>,
    at: int,
    after: Seq<SlotView>,
)
    requires
        0 <= at < before.len(),
        now.len() == before.len(),
        after.len() == before.len(),
        forall|i: int| 0 <= i < before.len() && i != at ==> #[trigger] now[i] == before[i],
        forall|i: int|
            0 <= i < before.len() && i != at ==> #[trigger] slot_views(before)[i] == after[i],
        now[at]@ == after[at],
    ensures
        slot_views(now) == after,
{
    assert forall|i: int| 0 <= i < now.len() implies slot_views(now)[i] == after[i] by {
        if i != at {
            assert(now[i] == before[i]);
            assert(slot_views(before)[i] == after[i]);
        }
    }
    assert(slot_views(now) =~= after);
}

/// The requests depend on the trackers, the room and the peer alone.
proof fn same_work(
    a: SearchView,
    b: SearchView,
    slots: Seq<SlotView>,
    n: int,
    busy: int,
    announce_port: u16,
    now: u64,
)
    requires
        a.generation == b.generation,
        a.room_id == b.room_id,
        a.peer_id == b.peer_id,
        a.announce_secs == b.announce_secs,
    ensures
        work_list(a, slots, n, busy, announce_port, now) == work_list(
            b,
            slots,
            n,
            busy,
            announce_port,
            now,
        ),
    decreases n,
{
    if n > 0 {
        same_work(a, b, slots, n - 1, busy, announce_port, now);
    }
}

/// No address is lost where some are added.
proof fn addrs_stay(had: Seq<Endpoint>, new: Seq<Endpoint>)
    ensures
        had.len() <= with_addrs(had, new).len(),
        forall|e: Endpoint| #[trigger] had.contains(e) ==> with_addrs(had, new).contains(e),
    decreases new.len(),
{
    if new.len() > 0 {
        addrs_stay(had, new.drop_last());
        let r = with_addrs(had, new.drop_last());
        let w = with_addrs(had, new);
        assert forall|e: Endpoint| #[trigger] had.contains(e) implies w.contains(e) by {
            assert(r.contains(e));
            let i = choose|i: int| 0 <= i < r.len() && r[i] == e;
            assert(w[i] == e);
        }
    }
}

/// The endpoints of a list.
spec fn eps_of(v: Seq<(Endpoint, u64)>) -> Seq<Endpoint> {
    Seq::new(v.len(), |i: int| v[i].0)
}

/// The newest is first.
spec fn falling(v: Seq<(Endpoint, u64)>) -> bool {
    forall|i: int, j: int| 0 <= i < j < v.len() ==> (#[trigger] v[i]).1 >= (#[trigger] v[j]).1
}

/// Puts an endpoint in its place among others.
fn insert_by_age(v: &mut Vec<(Endpoint, u64)>, e: Endpoint, t: u64)
    requires
        falling(old(v)@),
    ensures
        falling(final(v)@),
        exists|p: int|
            0 <= p <= old(v)@.len() && final(v)@ == #[trigger] old(v)@.insert(p, (e, t)),
{
    let ghost v0 = v@;
    let mut p: usize = 0;
    while p < v.len() && v[p].1 >= t
        invariant
            p <= v@.len(),
            v@ == v0,
            forall|i: int| 0 <= i < p ==> (#[trigger] v0[i]).1 >= t,
        decreases v@.len() - p,
    {
        p += 1;
    }
    v.insert(p, (e, t));
    proof {
        let b = v@;
        assert(b == v0.insert(p as int, (e, t)));
        assert forall|i: int, j: int| 0 <= i < j < b.len() implies (#[trigger] b[i]).1 >= (
        #[trigger] b[j]).1 by {
            if j < p {
                assert(v0[i].1 >= v0[j].1);
            } else if j == p {
                assert(v0[i].1 >= t);
            } else if i < p {
                assert(v0[i].1 >= v0[j - 1].1);
            } else if i == p {
                if j - 1 > p {
                    assert(v0[p as int].1 >= v0[j - 1].1);
                }
            } else {
                assert(v0[i - 1].1 >= v0[j - 1].1);
            }
        }
    }
}

/// What an inserted element changes.
proof fn inserted(s: Seq<Endpoint>, p: int, x: Endpoint)
    requires
        0 <= p <= s.len(),
        punch_targets::no_twice(s),
        !s.contains(x),
    ensures
        punch_targets::no_twice(s.insert(p, x)),
        forall|e: Endpoint| #[trigger] s.insert(p, x).contains(e) <==> s.contains(e) || e == x,
{
    let t = s.insert(p, x);
    assert forall|e: Endpoint| #[trigger] t.contains(e) <==> s.contains(e) || e == x by {
        if s.contains(e) {
            let i = choose|i: int| 0 <= i < s.len() && s[i] == e;
            assert(t[if i < p {
                i
            } else {
                i + 1
            }] == e);
        }
        if e == x {
            assert(t[p] == e);
        }
        if t.contains(e) && e != x {
            let i = choose|i: int| 0 <= i < t.len() && t[i] == e;
            assert(s[if i < p {
                i
            } else {
                i - 1
            }] == e);
        }
    }
    assert forall|i: int, j: int| 0 <= i < j < t.len() implies #[trigger] t[i] != #[trigger] t[j] by {
        let a = if i < p {
            i
        } else {
            i - 1
        };
        let b = if j < p {
            j
        } else {
            j - 1
        };
        if i == p {
            assert(s[b] == t[j]);
            assert(s.contains(t[j]));
        } else if j == p {
            assert(s[a] == t[i]);
            assert(s.contains(t[i]));
        } else {
            assert(s[a] == t[i] && s[b] == t[j]);
        }
    }
}

impl DecentralizedState {
    /// Forgets the questions that no answer came to. Tells whether there is a search.
    pub fn begin_tick(&mut self, now: u64) -> (active: bool)
        requires
            old(self).wf(),
        ensures
            final(self).wf(),
            active == old(self).active,
            final(self)@ == if active {
                SearchView { pending: fresh_pending(old(self)@.pending, now), ..old(self)@ }
            } else {
                old(self)@
            },
    {
        if !self.active {
            return false;
        }
        let ghost v0 = self@;
        let ghost s = self.pending.entries@;
        let ghost p = |e: (u32, PendingOp)| engine_state::elapsed(now, e.1.created) < PENDING_TTL;
        let f = |k: &u32, op: &PendingOp| -> (b: bool)
            ensures
                b == (engine_state::elapsed(now, op.created) < PENDING_TTL),
            { since(now, op.created) < PENDING_TTL };
        self.pending.retain_where(f, Ghost(p));
        proof {
            table::map_of_filter(s, p);
            let want = fresh_pending(v0.pending, now);
            assert forall|k: u32| self.pending@.dom().contains(k) <==> want.dom().contains(k) by {
                if table::has_key(s.filter(p), k) {
                    let i = choose|i: int| #[trigger] table::key_at(s, k, i) && p(s[i]);
                    table::map_of_at(s, i);
                }
                if want.dom().contains(k) {
                    let i = choose|i: int| table::key_at(s, k, i);
                    table::map_of_at(s, i);
                    assert(table::key_at(s, k, i) && p(s[i]));
                }
            }
            assert(self.pending@ =~= want);
            assert forall|i: int| 0 <= i < v0.slots.len() implies (#[trigger] self@.slots[i]).addrs
                == v0.slots[i].addrs && self@.slots[i].wf() by {
                assert(v0.slots[i].wf());
            }
            same_addrs(v0, self@);
        }
        true
    }

    /// Whether such a question is open.
    fn has_pending_in_flight(&self, tracker: Endpoint, kind: PendingKind) -> (b: bool)
        requires
            self.pending.wf(),
        ensures
            b == self@.asked(tracker, kind),
    {
        let ghost s = self.pending.entries@;
        let mut i: usize = 0;
        while i < self.pending.entries.len()
            invariant
                self.pending.wf(),
                s == self.pending.entries@,
                i <= s.len(),
                forall|j: int|
                    0 <= j < i ==> !((#[trigger] s[j]).1.tracker == tracker && s[j].1.kind == kind),
            decreases s.len() - i,
        {
            let op: PendingOp = self.pending.entries[i].1;
            if op.tracker == tracker && op.kind == kind {
                proof {
                    table::map_of_at(s, i as int);
                    assert(self@.pending.dom().contains(s[i as int].0));
                }
                return true;
            }
            i += 1;
        }
        proof {
            if self@.asked(tracker, kind) {
                let k = choose|k: u32| #[trigger]
                    self@.pending.dom().contains(k) && self@.pending[k].tracker == tracker
                        && self@.pending[k].kind == kind;
                let j = choose|j: int| table::key_at(s, k, j);
                table::map_of_at(s, j);
                assert(s[j].1.tracker == tracker);
            }
        }
        false
    }

    pub fn slot_count(&self) -> (n: usize)
        ensures
            n == self@.slots.len(),
    {
        self.slots.len()
    }

    /// What a tracker is to be sent now. The number of the question is drawn by
    /// chance.
    pub fn tick_tracker_slot(&mut self, slot_idx: usize, announce_port: u16, now: u64) -> (action:
        SlotAction)
        requires
            old(self).wf(),
        ensures
            final(self).wf(),
            exists|txn: u32|
                (action, final(self)@) == #[trigger] slot_asked(
                    old(self)@,
                    slot_idx,
                    announce_port,
                    txn,
                    now,
                ),
    {
        let txn: u32 = random_u32();
        self.ask_tracker(slot_idx, announce_port, txn, now)
    }

    /// What a tracker is to be sent now, if `txn` is the number of the question.
    pub fn ask_tracker(&mut self, slot_idx: usize, announce_port: u16, txn: u32, now: u64) -> (action:
        SlotAction)
        requires
            old(self).wf(),
        ensures
            final(self).wf(),
            (action, final(self)@) == slot_asked(old(self)@, slot_idx, announce_port, txn, now),
    {
        let ghost v0 = self@;
        if slot_idx >= self.slots.len() {
            return SlotAction::Idle;
        }
        proof {
            assert(v0.slots[slot_idx as int] == self.slots@[slot_idx as int]@);
        }
        if !self.slots[slot_idx].is_udp() {
            return SlotAction::Idle;
        }
        let to: Endpoint = match self.slots[slot_idx].current_addr() {
            Some(ep) => ep,
            None => {
                return SlotAction::Idle;
            },
        };
        if !self.slots[slot_idx].announce_due(self.announce_secs, now) {
            return SlotAction::Idle;
        }
        let connection: Option<u64> = match self.connections.get(&to) {
            Some(c) => if since(now, c.made_at) >= CONNECTION_TTL {
                None
            } else {
                Some(c.id)
            },
            None => None,
        };
        match connection {
            None => {
                if self.has_pending_in_flight(to, PendingKind::Connect) {
                    return SlotAction::Idle;
                }
                let op = PendingOp { kind: PendingKind::Connect, tracker: to, created: now };
                self.pending.insert(txn, op);
                proof {
                    question_added(v0, slot_idx as int, to, txn, op);
                    assert(self@ =~= (SearchView { pending: v0.pending.insert(txn, op), ..v0 }));
                }
                SlotAction::SendConnect { to, txn }
            },
            Some(id) => {
                if self.has_pending_in_flight(to, PendingKind::Announce) {
                    return SlotAction::Idle;
                }
                let op = PendingOp { kind: PendingKind::Announce, tracker: to, created: now };
                self.pending.insert(txn, op);
                proof {
                    question_added(v0, slot_idx as int, to, txn, op);
                    assert(self@ =~= (SearchView { pending: v0.pending.insert(txn, op), ..v0 }));
                }
                SlotAction::SendAnnounce { to, txn, connection: id, announce_port }
            },
        }
    }

    /// Takes back a question that could not be sent.
    pub fn slot_send_failed(&mut self, slot_idx: usize, action: SlotAction)
        requires
            old(self).wf(),
        ensures
            final(self).wf(),
            final(self)@ == not_sent(old(self)@, slot_idx, action),
    {
        let ghost v0 = self@;
        match action {
            SlotAction::Idle => {
                return;
            },
            SlotAction::SendConnect { to, txn } => {
                let _ = self.pending.remove(&txn);
            },
            SlotAction::SendAnnounce { to, txn, connection, announce_port } => {
                let _ = self.pending.remove(&txn);
                let _ = self.connections.remove(&to);
            },
        }
        let ghost want = not_sent(v0, slot_idx, action);
        if slot_idx < self.slots.len() {
            let ghost before = self.slots@;
            proof {
                assert(v0.slots[slot_idx as int].wf());
                assert(self.slots@[slot_idx as int]@ == v0.slots[slot_idx as int]);
            }
            self.slots[slot_idx].rotate_addr();
            proof {
                one_slot_changed(before, self.slots@, slot_idx as int, want.slots);
            }
        }
        proof {
            assert(self@ =~= want);
            assert forall|i: int| 0 <= i < v0.slots.len() implies (#[trigger] self@.slots[i]).addrs
                == v0.slots[i].addrs && self@.slots[i].wf() by {
                assert(v0.slots[i].wf());
                if i == slot_idx {
                    assert(self@.slots[i] == v0.slots[i].rotated());
                } else {
                    assert(self@.slots[i] == v0.slots[i]);
                }
            }
            same_addrs(v0, self@);
        }
    }

    /// The place of the endpoint that was named first.
    fn oldest(&self) -> (at: usize)
        requires
            self.discovered.entries@.len() > 0,
        ensures
            at < self.discovered.entries@.len(),
            forall|j: int|
                0 <= j < self.discovered.entries@.len() ==> self.discovered.entries@[at as int].1
                    <= (#[trigger] self.discovered.entries@[j]).1,
    {
        let ghost s = self.discovered.entries@;
        let mut at: usize = 0;
        let mut i: usize = 1;
        while i < self.discovered.entries.len()
            invariant
                s == self.discovered.entries@,
                at < i <= s.len(),
                forall|j: int| 0 <= j < i ==> s[at as int].1 <= (#[trigger] s[j]).1,
            decreases s.len() - i,
        {
            if self.discovered.entries[i].1 < self.discovered.entries[at].1 {
                at = i;
            }
            i += 1;
        }
        at
    }

    /// Forgets the endpoints that were named long ago, and the oldest where there
    /// are too many.
    pub fn prune_discovered(&mut self, now: u64)
        requires
            old(self).wf(),
        ensures
            final(self).wf(),
            final(self)@ == (SearchView { discovered: final(self)@.discovered, ..old(self)@ }),
            pruned(old(self)@.discovered, final(self)@.discovered, now),
    {
        let ghost v0 = self@;
        let ghost s = self.discovered.entries@;
        let ghost p = |e: (Endpoint, u64)| engine_state::elapsed(now, e.1) < DISCOVERED_TTL;
        let f = |k: &Endpoint, t: &u64| -> (b: bool)
            ensures
                b == (engine_state::elapsed(now, *t) < DISCOVERED_TTL),
            { since(now, *t) < DISCOVERED_TTL };
        self.discovered.retain_where(f, Ghost(p));
        let ghost live = known(v0.discovered, now);
        proof {
            table::map_of_filter(s, p);
            assert forall|k: Endpoint| self.discovered@.dom().contains(k) <==> live.dom().contains(
                k,
            ) by {
                if table::has_key(s.filter(p), k) {
                    let i = choose|i: int| #[trigger] table::key_at(s, k, i) && p(s[i]);
                    table::map_of_at(s, i);
                }
                if live.dom().contains(k) {
                    let i = choose|i: int| table::key_at(s, k, i);
                    table::map_of_at(s, i);
                    assert(table::key_at(s, k, i) && p(s[i]));
                }
            }
            assert(self.discovered@ =~= live);
            table::map_of_len(self.discovered.entries@);
        }
        let ghost whole = live.dom().len();
        while self.discovered.entries.len() > MAX_DISCOVERED
            invariant
                self.pending.wf(),
                self.connections.wf(),
                self.discovered.wf(),
                self@ == (SearchView { discovered: self@.discovered, ..v0 }),
                self@.discovered.submap_of(live),
                whole == live.dom().len(),
                self.discovered.entries@.len() <= whole,
                self.discovered.entries@.len() == whole ==> self@.discovered == live,
                whole > MAX_DISCOVERED ==> self.discovered.entries@.len() >= MAX_DISCOVERED,
                whole <= MAX_DISCOVERED ==> self.discovered.entries@.len() == whole,
                forall|a: Endpoint, b: Endpoint| #[trigger]
                    live.dom().contains(a) && !self@.discovered.dom().contains(a)
                        && #[trigger] self@.discovered.dom().contains(b) ==> live[a]
                        <= self@.discovered[b],
            decreases self.discovered.entries@.len(),
        {
            let ghost m = self@.discovered;
            let ghost t = self.discovered.entries@;
            let at: usize = self.oldest();
            let ghost x = t[at as int].0;
            proof {
                table::map_of_at(t, at as int);
                table::map_of_remove(t, at as int);
            }
            let _ = self.discovered.entries.remove(at);
            proof {
                assert(self@.discovered == m.remove(x));
                assert forall|a: Endpoint, b: Endpoint| #[trigger]
                    live.dom().contains(a) && !self@.discovered.dom().contains(a)
                        && #[trigger] self@.discovered.dom().contains(b) implies live[a]
                    <= self@.discovered[b] by {
                    assert(m.dom().contains(b));
                    if m.dom().contains(a) {
                        assert(a == x);
                        let j = choose|j: int| table::key_at(t, b, j);
                        table::map_of_at(t, j);
                        assert(t[at as int].1 <= t[j].1);
                    }
                }
            }
        }
        proof {
            table::map_of_len(self.discovered.entries@);
            same_addrs(v0, self@);
        }
    }

    /// The endpoints to try.
    fn exact_targets(&mut self, self_public_ep: Option<Endpoint>, now: u64) -> (out: Vec<Endpoint>)
        requires
            old(self).wf(),
        ensures
            final(self).wf(),
            final(self)@ == (SearchView { discovered: final(self)@.discovered, ..old(self)@ }),
            pruned(old(self)@.discovered, final(self)@.discovered, now),
            exact_done(
                out@,
                final(self)@.discovered,
                self_public_ep,
                old(self)@.join_owner_hint,
            ),
    {
        self.prune_discovered(now);
        let ghost s = self.discovered.entries@;
        let ghost m = self@.discovered;
        let mut sorted: Vec<(Endpoint, u64)> = Vec::new();
        let mut i: usize = 0;
        proof {
            assert(eps_of(sorted@) =~= Seq::<Endpoint>::empty());
        }
        while i < self.discovered.entries.len()
            invariant
                self.discovered.wf(),
                s == self.discovered.entries@,
                m == self.discovered@,
                i <= s.len(),
                falling(sorted@),
                punch_targets::no_twice(eps_of(sorted@)),
                forall|x: int|
                    0 <= x < sorted@.len() ==> m.dom().contains((#[trigger] sorted@[x]).0)
                        && m[sorted@[x].0] == sorted@[x].1,
                forall|e: Endpoint| #[trigger]
                    eps_of(sorted@).contains(e) <==> table::has_key(s.take(i as int), e)
                        && self_public_ep != Some(e),
            decreases s.len() - i,
        {
            let ep: Endpoint = self.discovered.entries[i].0;
            let t: u64 = self.discovered.entries[i].1;
            let own: bool = match self_public_ep {
                Some(me) => me == ep,
                None => false,
            };
            let ghost before = sorted@;
            proof {
                table::map_of_at(s, i as int);
                one_more_key(s, i as int);
            }
            if !own {
                insert_by_age(&mut sorted, ep, t);
                proof {
                    let p = choose|p: int|
                        0 <= p <= before.len() && sorted@ == #[trigger] before.insert(p, (ep, t));
                    assert(eps_of(sorted@) =~= eps_of(before).insert(p, ep));
                    assert(!eps_of(before).contains(ep));
                    inserted(eps_of(before), p, ep);
                    assert forall|x: int| 0 <= x < sorted@.len() implies m.dom().contains(
                        (#[trigger] sorted@[x]).0,
                    ) && m[sorted@[x].0] == sorted@[x].1 by {
                        if x < p {
                            assert(sorted@[x] == before[x]);
                        } else if x > p {
                            assert(sorted@[x] == before[x - 1]);
                        }
                    }
                }
            }
            i += 1;
        }
        let ghost v = eps_of(sorted@);
        proof {
            assert(s.take(s.len() as int) =~= s);
            assert forall|a: int, b: int| 0 <= a < b < v.len() implies m[#[trigger] v[a]]
                >= m[#[trigger] v[b]] by {
                assert(sorted@[a].1 >= sorted@[b].1);
            }
            assert(newest_first(v, m, self_public_ep));
        }
        let mut out: Vec<Endpoint> = Vec::new();
        let mut k: usize = 0;
        while k < sorted.len() && k < MAX_PUNCH_TARGETS
            invariant
                k <= sorted@.len(),
                k <= MAX_PUNCH_TARGETS,
                v == eps_of(sorted@),
                out@ == v.take(k as int),
            decreases sorted@.len() - k,
        {
            out.push(sorted[k].0);
            proof {
                assert(v.take(k + 1) =~= v.take(k as int).push(v[k as int]));
            }
            k += 1;
        }
        proof {
            assert(out@ =~= punch_targets::at_most(v, MAX_PUNCH_TARGETS as int));
        }
        if let Some(hint) = self.join_owner_hint {
            if !has_endpoint(&out, hint) {
                out.push(hint);
            }
        }
        out
    }

    /// The endpoints to try while a join is under way.
    pub fn join_punch_base_targets(&mut self, self_public_ep: Option<Endpoint>, now: u64) -> (out:
        Vec<Endpoint>)
        requires
            old(self).wf(),
        ensures
            final(self).wf(),
            final(self)@ == (SearchView { discovered: final(self)@.discovered, ..old(self)@ }),
            pruned(old(self)@.discovered, final(self)@.discovered, now),
            exact_done(
                out@,
                final(self)@.discovered,
                self_public_ep,
                old(self)@.join_owner_hint,
            ),
    {
        self.exact_targets(self_public_ep, now)
    }

    /// What is to be done once the trackers were asked.
    pub fn finish_tick(
        &mut self,
        self_public_ep: Option<Endpoint>,
        join_pending: bool,
        now: u64,
    ) -> (out: DecentralizedTickOutput)
        requires
            old(self).wf(),
        ensures
            final(self).wf(),
            !old(self).active ==> out.punch_targets@.len() == 0 && out.join_fanout@.len() == 0
                && final(self)@ == old(self)@,
            old(self).active ==> {
                &&& final(self)@ == (SearchView {
                    discovered: final(self)@.discovered,
                    ..old(self)@
                })
                &&& pruned(old(self)@.discovered, final(self)@.discovered, now)
                &&& exists|targets: Seq<Endpoint>| #[trigger]
                    exact_done(
                        targets,
                        final(self)@.discovered,
                        self_public_ep,
                        old(self)@.join_owner_hint,
                    ) && (out.punch_targets@, fan_views(out.join_fanout@)) == tick_result(
                        old(self)@,
                        targets,
                        join_pending,
                    )
            },
    {
        if !self.active {
            return DecentralizedTickOutput { punch_targets: Vec::new(), join_fanout: Vec::new() };
        }
        let ghost v0 = self@;
        let targets: Vec<Endpoint> = self.exact_targets(self_public_ep, now);
        let punch: Vec<Endpoint> = if targets.len() == 0 {
            Vec::new()
        } else {
            expand_symmetric_targets(&targets, self.join_owner_hint, MAX_EXPANDED_PUNCH_TARGETS)
        };
        let ghost want = tick_result(v0, targets@, join_pending);
        let mut fanout: Vec<(Endpoint, Vec<u8>)> = Vec::new();
        if self.is_joiner && join_pending {
            if let Some(body) = &self.join_body {
                let to: Vec<Endpoint> = fan_out(self.join_owner_hint, &targets);
                let mut i: usize = 0;
                while i < to.len()
                    invariant
                        i <= to@.len(),
                        fanout@.len() == i,
                        forall|j: int|
                            0 <= j < i ==> (#[trigger] fanout@[j]).0 == to@[j] && fanout@[j].1@
                                == body@,
                    decreases to@.len() - i,
                {
                    fanout.push((to[i], copy_body(body)));
                    i += 1;
                }
            }
        }
        proof {
            assert(fan_views(fanout@) =~= want.1);
            assert(punch@ =~= want.0);
        }
        DecentralizedTickOutput { punch_targets: punch, join_fanout: fanout }
    }
}

fn copy_body(body: &Vec<u8>) -> (out: Vec<u8>)
    ensures
        out@ == body@,
{
    let mut out: Vec<u8> = Vec::new();
    let mut i: usize = 0;
    while i < body.len()
        invariant
            i <= body@.len(),
            out@ == body@.take(i as int),
        decreases body@.len() - i,
    {
        out.push(body[i]);
        proof {
            assert(body@.take(i + 1) =~= body@.take(i as int).push(body@[i as int]));
        }
        i += 1;
    }
    proof {
        assert(body@.take(body@.len() as int) =~= body@);
    }
    out
}

/// To whom join requests go.
fn fan_out(hint: Option<Endpoint>, targets: &Vec<Endpoint>) -> (out: Vec<Endpoint>)
    ensures
        out@ == fan(hint, targets@),
{
    let mut out: Vec<Endpoint> = Vec::new();
    let ghost none = Seq::<Endpoint>::empty();
    let mut first: Vec<Endpoint> = Vec::new();
    if let Some(h) = hint {
        first.push(h);
    }
    let ghost want = match hint {
        Some(h) => seq![h],
        None => Seq::empty(),
    };
    proof {
        assert(first@ =~= want);
        assert(none + first@ =~= first@);
        reveal_with_fuel(punch_targets::firsts, 3);
        assert(first@.len() > 0 ==> first@.drop_last() =~= none);
        assert(punch_targets::firsts(first@).len() <= 1);
    }
    let _ = offer_all(&mut out, &first, MAX_FANOUT_MPJN_PER_TICK, Ghost(none));
    let _ = offer_all(&mut out, targets, MAX_FANOUT_MPJN_PER_TICK, Ghost(first@));
    out
}

/// One more entry brings one more key.
proof fn one_more_key(s: Seq<(Endpoint, u64)>, i: int)
    requires
        table::distinct_keys(s),
        0 <= i < s.len(),
    ensures
        !table::has_key(s.take(i), s[i].0),
        forall|e: Endpoint| #[trigger]
            table::has_key(s.take(i + 1), e) <==> table::has_key(s.take(i), e) || e == s[i].0,
{
    let a = s.take(i);
    let b = s.take(i + 1);
    if table::has_key(a, s[i].0) {
        let j = choose|j: int| table::key_at(a, s[i].0, j);
        assert(s[j].0.id() != s[i].0.id());
    }
    assert forall|e: Endpoint| #[trigger] table::has_key(b, e) <==> table::has_key(a, e) || e
        == s[i].0 by {
        if table::has_key(a, e) {
            let j = choose|j: int| table::key_at(a, e, j);
            assert(table::key_at(b, e, j));
        }
        if e == s[i].0 {
            assert(table::key_at(b, e, i));
        }
        if table::has_key(b, e) {
            let j = choose|j: int| table::key_at(b, e, j);
            if j < i {
                assert(table::key_at(a, e, j));
            }
        }
    }
}

/// A question to a tracker that is not open yet keeps the search in order.
proof fn question_added(v: SearchView, slot: int, to: Endpoint, txn: u32, op: PendingOp)
    requires
        v.wf(),
        0 <= slot < v.slots.len(),
        v.slots[slot].current() == Some(to),
        op.tracker == to,
        !v.asked(to, op.kind),
    ensures
        (SearchView { pending: v.pending.insert(txn, op), ..v }).wf(),
{
    let w = SearchView { pending: v.pending.insert(txn, op), ..v };
    let addrs = v.slots[slot].addrs;
    let at = v.slots[slot].use_idx as int % addrs.len() as int;
    assert(addrs[at] == to);
    assert(v.slots[slot].addrs.contains(to));
    assert forall|k: u32| #[trigger] w.pending.dom().contains(k) implies of_a_tracker(
        w.slots,
        w.pending[k].tracker,
    ) by {
        if k != txn {
            assert(v.pending.dom().contains(k));
        }
    }
    assert forall|x: u32, y: u32| #[trigger]
        w.pending.dom().contains(x) && #[trigger] w.pending.dom().contains(y) && x
            != y implies !(w.pending[x].tracker == w.pending[y].tracker && w.pending[x].kind
        == w.pending[y].kind) by {
        if x != txn {
            assert(v.pending.dom().contains(x));
        }
        if y != txn {
            assert(v.pending.dom().contains(y));
        }
    }
}

/// However long trackers are silent, there are never more than two open questions
/// for each of them.
pub proof fn open_questions_are_bounded(v: SearchView, trackers: Set<Endpoint>)
    requires
        one_of_each(v.pending),
        v.pending.dom().finite(),
        trackers.finite(),
        forall|k: u32| #[trigger]
            v.pending.dom().contains(k) ==> trackers.contains(v.pending[k].tracker),
    ensures
        v.pending.dom().len() <= 2 * trackers.len(),
    decreases trackers.len(),
{
    let m = v.pending;
    if trackers.len() == 0 {
        assert(trackers =~= Set::empty());
        assert forall|k: u32| !m.dom().contains(k) by {
            if m.dom().contains(k) {
                assert(trackers.contains(m[k].tracker));
            }
        }
        assert(m.dom() =~= Set::empty());
    } else {
        let t = trackers.choose();
        let w1 = without_question(v, t, PendingKind::Connect);
        let w2 = without_question(w1, t, PendingKind::Announce);
        one_question_less(v, t, PendingKind::Connect);
        one_question_less(w1, t, PendingKind::Announce);
        assert forall|k: u32| #[trigger] w2.pending.dom().contains(k) implies trackers.remove(
            t,
        ).contains(w2.pending[k].tracker) by {
            assert(w1.pending.dom().contains(k));
            assert(m.dom().contains(k));
            match w2.pending[k].kind {
                PendingKind::Connect => {},
                PendingKind::Announce => {},
            }
        }
        open_questions_are_bounded(w2, trackers.remove(t));
    }
}

/// The search without its questions of a kind to a tracker.
spec fn without_question(v: SearchView, t: Endpoint, kind: PendingKind) -> SearchView {
    SearchView {
        pending: v.pending.restrict(
            Set::new(
                |k: u32|
                    v.pending.dom().contains(k) && !(v.pending[k].tracker == t && v.pending[k].kind
                        == kind),
            ),
        ),
        ..v
    }
}

proof fn one_question_less(v: SearchView, t: Endpoint, kind: PendingKind)
    requires
        one_of_each(v.pending),
        v.pending.dom().finite(),
    ensures
        ({
            let w = without_question(v, t, kind);
            &&& one_of_each(w.pending)
            &&& w.pending.dom().finite()
            &&& v.pending.dom().len() <= w.pending.dom().len() + 1
        }),
{
    let w = without_question(v, t, kind);
    let m = v.pending;
    assert forall|a: u32, b: u32| #[trigger]
        w.pending.dom().contains(a) && #[trigger] w.pending.dom().contains(b) && a != b implies !(
    w.pending[a].tracker == w.pending[b].tracker && w.pending[a].kind == w.pending[b].kind) by {
        assert(m.dom().contains(a) && m.dom().contains(b));
    }
    if v.asked(t, kind) {
        let k = choose|k: u32| #[trigger]
            m.dom().contains(k) && m[k].tracker == t && m[k].kind == kind;
        assert forall|x: u32| w.pending.dom().contains(x) <==> m.dom().remove(k).contains(x) by {
            if m.dom().contains(x) && x != k {
                assert(m.dom().contains(k));
            }
        }
        assert(w.pending.dom() =~= m.dom().remove(k));
    } else {
        assert(w.pending.dom() =~= m.dom());
    }
}

/// No more than the allowed number of requests over HTTP are under way, unless
/// more were under way before.
pub proof fn http_requests_are_bounded(slots: Seq<SlotView>, secs: u64, now: u64)
    ensures
        ({
            let busy = under_way(slots);
            let after = under_way(handed_out(slots, busy, secs, now));
            after <= MAX_HTTP_IN_FLIGHT || after == busy
        }),
        under_way(all_swept(slots, now)) <= under_way(slots),
{
    let busy = under_way(slots);
    handed_out_counts(slots, busy, secs, now, slots.len() as int);
    picked_is_bounded(slots, slots.len() as int, busy, secs, now);
    assert(slots.take(slots.len() as int) =~= slots);
    let out = handed_out(slots, busy, secs, now);
    assert(out.take(out.len() as int) =~= out);
    sweeping_frees(slots, now);
}

proof fn sweeping_frees(slots: Seq<SlotView>, now: u64)
    ensures
        under_way(all_swept(slots, now)) <= under_way(slots),
    decreases slots.len(),
{
    if slots.len() > 0 {
        sweeping_frees(slots.drop_last(), now);
        assert(all_swept(slots, now).drop_last() =~= all_swept(slots.drop_last(), now));
    }
}

proof fn handed_out_counts(slots: Seq<SlotView>, busy: int, secs: u64, now: u64, n: int)
    requires
        0 <= n <= slots.len(),
    ensures
        under_way(handed_out(slots, busy, secs, now).take(n)) == under_way(slots.take(n)) + picked(
            slots,
            n,
            busy,
            secs,
            now,
        ),
    decreases n,
{
    let out = handed_out(slots, busy, secs, now);
    if n > 0 {
        handed_out_counts(slots, busy, secs, now, n - 1);
        assert(out.take(n).drop_last() =~= out.take(n - 1));
        assert(slots.take(n).drop_last() =~= slots.take(n - 1));
    } else {
        assert(out.take(0) =~= Seq::<SlotView>::empty());
        assert(slots.take(0) =~= Seq::<SlotView>::empty());
    }
}

proof fn picked_is_bounded(slots: Seq<SlotView>, n: int, busy: int, secs: u64, now: u64)
    ensures
        picked(slots, n, busy, secs, now) == 0 || busy + picked(slots, n, busy, secs, now)
            <= MAX_HTTP_IN_FLIGHT,
        picked(slots, n, busy, secs, now) >= 0,
    decreases n,
{
    if n > 0 {
        picked_is_bounded(slots, n - 1, busy, secs, now);
    }
}

/// An answer to a request of an earlier search changes nothing, neither once that
/// search has ended nor in the search that follows.
pub proof fn late_answers_are_ignored(
    generation: u64,
    next: SearchStart,
    slot_idx: usize,
    url: Seq<char>,
    outcome: Option<(u32, Seq<Endpoint>)>,
    now: u64,
)
    ensures
        ({
            let ended = at_rest(next_generation(generation));
            http_answered(ended, slot_idx, generation, url, outcome, now) == (
                None::<EventView>,
                ended,
            )
        }),
        ({
            let v = started(generation, next);
            http_answered(v, slot_idx, generation, url, outcome, now) == (None::<EventView>, v)
        }),
{
}

/// A question is answered by the tracker that was asked, and once: a datagram with its
/// number from anywhere else changes nothing, so that the tracker can still answer;
/// once it has, the same number means nothing any more.
pub proof fn only_the_asked_tracker_answers(
    v: SearchView,
    from: Endpoint,
    data: Seq<u8>,
    connection: Option<u64>,
    announce: Option<(u32, Seq<Endpoint>)>,
    now: u64,
    again: Seq<u8>,
    connection2: Option<u64>,
    announce2: Option<(u32, Seq<Endpoint>)>,
    later: u64,
)
    requires
        v.active,
        data.len() >= SHORTEST_ANSWER,
        v.pending.dom().contains(txn_of(data)),
        again.len() >= SHORTEST_ANSWER,
        txn_of(again) == txn_of(data),
    ensures
        ({
            let txn = txn_of(data);
            let asked = v.pending[txn].tracker;
            let (handled, event, after) = answered(v, from, data, connection, announce, now);
            let second = answered(after, asked, again, connection2, announce2, later);
            &&& from != asked ==> !handled && event is None && after == v && second.0
            &&& from == asked ==> handled && after.pending == v.pending.remove(txn) && second == (
                false,
                None::<EventView>,
                after,
            )
        }),
{
}

/// Every peer that a tracker names is known from then on, and no other is.
pub proof fn named_peers_are_known(m: Map<Endpoint, u64>, peers: Seq<Endpoint>, now: u64, e: Endpoint)
    ensures
        noted(m, peers, now).dom().contains(e) <==> m.dom().contains(e) || peers.contains(e),
        noted(m, peers, now).dom().contains(e) ==> noted(m, peers, now)[e] == if peers.contains(e) {
            now
        } else {
            m[e]
        },
    decreases peers.len(),
{
    if peers.len() > 0 {
        let p = peers.drop_last();
        named_peers_are_known(m, p, now, e);
        if p.contains(e) {
            let i = choose|i: int| 0 <= i < p.len() && p[i] == e;
            assert(peers[i] == e);
        }
        if peers.contains(e) {
            let i = choose|i: int| 0 <= i < peers.len() && peers[i] == e;
            if i < p.len() {
                assert(p[i] == e);
            }
        }
        assert(peers[peers.len() - 1] == peers.last());
    }
}

/// The owner is tried in any case, and is the first to get a join request.
pub proof fn owner_comes_first(v: Seq<Endpoint>, owner: Endpoint)
    ensures
        exact(v, Some(owner)).contains(owner),
        ({
            let f = fan(Some(owner), exact(v, Some(owner)));
            f.len() > 0 && f[0] == owner && f.len() <= MAX_FANOUT_MPJN_PER_TICK
        }),
{
    let targets = exact(v, Some(owner));
    let t = punch_targets::at_most(v, MAX_PUNCH_TARGETS as int);
    if !t.contains(owner) {
        assert(targets[t.len() as int] == owner);
    }
    let s = seq![owner] + targets;
    assert(s.take(1) =~= seq![owner]);
    punch_targets::firsts_of_start(s, 1);
    reveal_with_fuel(punch_targets::firsts, 3);
    assert(seq![owner].drop_last() =~= Seq::<Endpoint>::empty());
    assert(punch_targets::firsts(seq![owner]) =~= seq![owner]);
    assert(punch_targets::firsts(s).take(1)[0] == owner);
}

} // verus!
