//! When something was last sent where, so that keepalives go only where nothing
//! else went.
//!
//! Times are milliseconds.

use crate::addr::Endpoint;
use crate::engine_cmd;
use crate::engine_state;
use crate::engine_state::{since, EngineState};
use crate::table;
use crate::table::Table;
use vstd::prelude::*;

verus! {

/// When something was last sent to each destination.
pub struct OutboundUdpClock {
    pub map: Table<Endpoint, u64>,
    pub note_total: u64,
}

/// When something was last sent to each destination, and how often that was noted.
#[verifier::ext_equal]
pub ghost struct ClockView {
    pub sent: Map<Endpoint, u64>,
    pub total: u64,
}

impl View for OutboundUdpClock {
    type V = ClockView;

    open spec fn view(&self) -> ClockView {
        ClockView { sent: self.map@, total: self.note_total }
    }
}

/// Nothing went to the destination for a time.
pub open spec fn quiet(sent: Map<Endpoint, u64>, dest: Endpoint, now: u64, keepalive: u64) -> bool {
    sent.dom().contains(dest) ==> engine_state::elapsed(now, sent[dest]) >= keepalive
}

/// The destinations that are kept.
pub open spec fn kept(sent: Map<Endpoint, u64>, keep: Set<Endpoint>) -> Map<Endpoint, u64> {
    sent.restrict(keep)
}

impl Default for OutboundUdpClock {
    fn default() -> (out: Self)
        ensures
            out.wf(),
            out@ == (ClockView { sent: Map::empty(), total: 0 }),
    {
        OutboundUdpClock::new()
    }
}

impl OutboundUdpClock {
    pub open spec fn wf(&self) -> bool {
        self.map.wf()
    }

    pub fn new() -> (out: Self)
        ensures
            out.wf(),
            out@ == (ClockView { sent: Map::empty(), total: 0 }),
    {
        OutboundUdpClock { map: Table::new(), note_total: 0 }
    }

    /// Notes that something was sent. The count starts again at 0 after the
    /// largest number.
    pub fn note(&mut self, dest: Endpoint, now: u64)
        requires
            old(self).wf(),
        ensures
            final(self).wf(),
            final(self)@.sent == old(self)@.sent.insert(dest, now),
            final(self)@.total == if old(self)@.total == u64::MAX {
                0
            } else {
                old(self)@.total + 1
            },
    {
        self.map.insert(dest, now);
        self.note_total = if self.note_total == u64::MAX {
            0
        } else {
            self.note_total + 1
        };
    }

    /// When something was last sent there.
    pub fn last(&self, dest: Endpoint) -> (out: Option<u64>)
        requires
            self.wf(),
        ensures
            out == if self@.sent.dom().contains(dest) {
                Some(self@.sent[dest])
            } else {
                None
            },
    {
        match self.map.get(&dest) {
            Some(t) => Some(*t),
            None => None,
        }
    }

    /// Whether nothing went there for a time.
    pub fn needs_refresh(&self, dest: Endpoint, now: u64, keepalive: u64) -> (b: bool)
        requires
            self.wf(),
        ensures
            b == quiet(self@.sent, dest, now, keepalive),
    {
        match self.last(dest) {
            None => true,
            Some(last) => since(now, last) >= keepalive,
        }
    }

    pub fn clear(&mut self)
        ensures
            final(self).wf(),
            final(self)@ == (ClockView { sent: Map::empty(), ..old(self)@ }),
    {
        self.map.clear();
    }

    pub fn remove(&mut self, dest: Endpoint)
        requires
            old(self).wf(),
        ensures
            final(self).wf(),
            final(self)@ == (ClockView { sent: old(self)@.sent.remove(dest), ..old(self)@ }),
    {
        let _ = self.map.remove(&dest);
    }

    /// Forgets all other destinations.
    pub fn retain_only(&mut self, keep: &Table<Endpoint, ()>)
        requires
            old(self).wf(),
            keep.wf(),
        ensures
            final(self).wf(),
            final(self)@ == (ClockView {
                sent: kept(old(self)@.sent, keep@.dom()),
                ..old(self)@
            }),
    {
        let ghost s = self.map.entries@;
        let ghost p = |e: (Endpoint, u64)| keep@.dom().contains(e.0);
        let f = |k: &Endpoint, t: &u64| -> (b: bool)
            ensures
                b == keep@.dom().contains(*k),
            { keep.contains_key(k) };
        self.map.retain_where(f, Ghost(p));
        proof {
            table::map_of_filter(s, p);
            let want = kept(table::map_of(s), keep@.dom());
            assert forall|k: Endpoint| self.map@.dom().contains(k) <==> want.dom().contains(k) by {
                if table::has_key(s.filter(p), k) {
                    let i = choose|i: int| #[trigger] table::key_at(s, k, i) && p(s[i]);
                    assert(table::has_key(s, k));
                }
                if want.dom().contains(k) {
                    let i = choose|i: int| table::key_at(s, k, i);
                    assert(table::key_at(s, k, i) && p(s[i]));
                }
            }
            assert(self.map@ =~= want);
        }
    }

    pub fn note_total(&self) -> (n: u64)
        ensures
            n == self@.total,
    {
        self.note_total
    }
}

/// Where a keepalive goes, and whether it asks for an answer.
#[derive(Clone, Copy, Debug, PartialEq, Eq, Structural)]
pub struct KeepaliveTarget {
    pub to: Endpoint,
    pub hol: bool,
}

/// The owner's endpoint, where no route leads there.
pub open spec fn extra_owner(state: EngineState) -> Option<Endpoint> {
    match engine_state::owner_endpoint_of(state.id@, state.routing.routes()) {
        Some(ep) => if state.routing.vips().dom().contains(ep) {
            None
        } else {
            Some(ep)
        },
        None => None,
    }
}

/// Where keepalives go: along the routes, and to the owner, who is asked for an
/// answer where no route leads there.
pub open spec fn keepalive_list(state: EngineState) -> Seq<KeepaliveTarget> {
    let routes = engine_cmd::live_endpoints(state.routing.table.entries@);
    let along = Seq::new(routes.len(), |i: int| KeepaliveTarget { to: routes[i], hol: false });
    match extra_owner(state) {
        Some(ep) => along.push(KeepaliveTarget { to: ep, hol: true }),
        None => along,
    }
}

/// The endpoints that keepalives go to.
pub open spec fn keepalive_set(state: EngineState) -> Set<Endpoint> {
    Set::new(
        |e: Endpoint|
            exists|i: int|
                0 <= i < keepalive_list(state).len() && (#[trigger] keepalive_list(state)[i]).to
                    == e,
    )
}

/// Where keepalives go; the other destinations are forgotten. Each is sent one
/// only if [`OutboundUdpClock::needs_refresh`].
pub fn plan_keepalives(state: &EngineState, clock: &mut OutboundUdpClock) -> (out: Vec<
    KeepaliveTarget,
>)
    requires
        state.wf(),
        old(clock).wf(),
    ensures
        final(clock).wf(),
        out@ == keepalive_list(*state),
        final(clock)@ == (ClockView {
            sent: kept(old(clock)@.sent, keepalive_set(*state)),
            ..old(clock)@
        }),
{
    let ghost want = keepalive_list(*state);
    let routes: Vec<Endpoint> = state.endpoints_excluding_stale();
    let mut out: Vec<KeepaliveTarget> = Vec::new();
    let mut i: usize = 0;
    while i < routes.len()
        invariant
            i <= routes@.len(),
            out@.len() == i,
            forall|j: int|
                0 <= j < i ==> #[trigger] out@[j] == (KeepaliveTarget {
                    to: routes@[j],
                    hol: false,
                }),
        decreases routes@.len() - i,
    {
        out.push(KeepaliveTarget { to: routes[i], hol: false });
        i += 1;
    }
    if let Some(ep) = state.owner_send_endpoint() {
        if !state.routing.tracks_endpoint(ep) {
            out.push(KeepaliveTarget { to: ep, hol: true });
        }
    }
    proof {
        assert(out@ =~= want);
    }
    let mut keep: Table<Endpoint, ()> = Table::new();
    let mut k: usize = 0;
    while k < out.len()
        invariant
            k <= out@.len(),
            keep.wf(),
            forall|e: Endpoint| #[trigger]
                keep@.dom().contains(e) <==> exists|j: int|
                    0 <= j < k && (#[trigger] out@[j]).to == e,
        decreases out@.len() - k,
    {
        let ghost before = keep@;
        keep.insert(out[k].to, ());
        proof {
            assert forall|e: Endpoint| #[trigger] keep@.dom().contains(e) <==> exists|j: int|
                0 <= j < k + 1 && (#[trigger] out@[j]).to == e by {
                assert(keep@.dom().contains(e) <==> before.dom().contains(e) || e
                    == out@[k as int].to);
            }
        }
        k += 1;
    }
    clock.retain_only(&keep);
    proof {
        assert(keep@.dom() =~= keepalive_set(*state));
    }
    out
}

/// What was just sent somewhere puts off the next keepalive there, and nowhere
/// else.
pub proof fn traffic_stands_for_keepalives(
    sent: Map<Endpoint, u64>,
    dest: Endpoint,
    at: u64,
    other: Endpoint,
    now: u64,
    keepalive: u64,
)
    requires
        at <= now < at + keepalive,
        other != dest,
    ensures
        !quiet(sent.insert(dest, at), dest, now, keepalive),
        quiet(sent.insert(dest, at), other, now, keepalive) == quiet(sent, other, now, keepalive),
{
}

} // verus!
