//! Who else is told of changes to the membership.
//!
//! A node that is not the owner keeps a roster outside, for the case that it has
//! to look for its peers by itself.

use crate::addr::Endpoint;
use crate::engine_routes;
use crate::engine_routes::{AppliedRoute, MsynEffects, RemovedPeer};
use crate::engine_state::EngineState;
use crate::routing;
use crate::text::str_eq;
use vstd::prelude::*;

verus! {

/// A member.
#[derive(Clone, Debug, PartialEq, Eq)]
pub struct PeerInfo {
    pub node_id: String,
    pub name: String,
    pub virtual_ip: String,
    pub real_ip: Endpoint,
}

/// A change of the roster.
#[derive(Clone, Debug, PartialEq, Eq)]
pub enum RosterChange {
    Upsert(PeerInfo),
    /// The member with this address is gone.
    Remove(String),
}

/// A change of the roster, by value.
pub ghost enum RosterView {
    Upsert { node_id: Seq<char>, name: Seq<char>, virtual_ip: Seq<char>, real_ip: Endpoint },
    Remove { virtual_ip: Seq<char> },
}

impl View for RosterChange {
    type V = RosterView;

    open spec fn view(&self) -> RosterView {
        match *self {
            RosterChange::Upsert(p) => RosterView::Upsert {
                node_id: p.node_id@,
                name: p.name@,
                virtual_ip: p.virtual_ip@,
                real_ip: p.real_ip,
            },
            RosterChange::Remove(v) => RosterView::Remove { virtual_ip: v@ },
        }
    }
}

/// A change that may be missing, by value.
pub open spec fn maybe_change(c: Option<RosterChange>) -> Option<RosterView> {
    match c {
        Some(x) => Some(x@),
        None => None,
    }
}

/// The values of a list.
pub open spec fn change_views(s: Seq<RosterChange>) -> Seq<RosterView> {
    Seq::new(s.len(), |i: int| s[i]@)
}

/// Under which name a peer goes into the roster: the given one, else the one that
/// its route has.
pub open spec fn roster_name(
    routes: Map<Seq<char>, routing::RouteView>,
    vip: Seq<char>,
    node_id: Option<Seq<char>>,
) -> Seq<char> {
    if node_id is Some && node_id->0.len() > 0 {
        node_id->0
    } else {
        engine_routes::node_at(routes, vip)
    }
}

/// What is told of a peer that is there: nothing at the owner's, and nothing of
/// the own address and the owner's.
pub open spec fn upsert_of(
    state: EngineState,
    listening: bool,
    vip: Seq<char>,
    ep: Endpoint,
    node_id: Option<Seq<char>>,
) -> Option<RosterView> {
    if state.id.is_owner || !listening || vip == state.id@.my_vip || vip
        == state.id@.owner_vip_cached {
        None
    } else {
        let name = roster_name(state.routing.routes(), vip, node_id);
        Some(RosterView::Upsert { node_id: name, name, virtual_ip: vip, real_ip: ep })
    }
}

/// What is told of a peer that is gone.
pub open spec fn removal_told(state: EngineState, listening: bool, vip: Seq<char>) -> Option<
    RosterView,
> {
    if state.id.is_owner || !listening {
        None
    } else {
        Some(RosterView::Remove { virtual_ip: vip })
    }
}

/// What is told of the first `n` of the peers that a sync took out.
pub open spec fn removals_of(
    state: EngineState,
    listening: bool,
    s: Seq<engine_routes::RemovedView>,
    n: nat,
) -> Seq<RosterView>
    decreases n,
{
    if n == 0 {
        Seq::empty()
    } else {
        let rest = removals_of(state, listening, s, (n - 1) as nat);
        match removal_told(state, listening, s[n - 1].gone.vip) {
            Some(c) => rest.push(c),
            None => rest,
        }
    }
}

/// What is told of the first `n` of the routes that a sync brought.
pub open spec fn upserts_of(
    state: EngineState,
    listening: bool,
    s: Seq<engine_routes::AppliedView>,
    n: nat,
) -> Seq<RosterView>
    decreases n,
{
    if n == 0 {
        Seq::empty()
    } else {
        let rest = upserts_of(state, listening, s, (n - 1) as nat);
        match upsert_of(state, listening, s[n - 1].vip, s[n - 1].ep, s[n - 1].node_id) {
            Some(c) => rest.push(c),
            None => rest,
        }
    }
}

/// What is told of a sync: its removals, its routes, and what it did not know any
/// more.
pub open spec fn sync_told(state: EngineState, listening: bool, fx: MsynEffects) -> Seq<RosterView> {
    let a = engine_routes::removed_views(fx.removed@);
    let b = engine_routes::applied_views(fx.applied@);
    let c = engine_routes::removed_views(fx.phantoms@);
    removals_of(state, listening, a, a.len()) + upserts_of(state, listening, b, b.len())
        + removals_of(state, listening, c, c.len())
}

impl EngineState {
    /// A peer is there: the change that is told, if there is one. `listening`
    /// tells whether anybody keeps a roster.
    pub fn notify_roster_upsert(
        &self,
        listening: bool,
        vip: &String,
        ep: Endpoint,
        node_id: Option<&String>,
    ) -> (out: Option<RosterChange>)
        requires
            self.wf(),
        ensures
            maybe_change(out) == upsert_of(
                *self,
                listening,
                vip@,
                ep,
                match node_id {
                    Some(n) => Some(n@),
                    None => None,
                },
            ),
    {
        if self.id.is_owner || !listening {
            return None;
        }
        if str_eq(vip.as_str(), self.id.my_vip.as_str()) || str_eq(
            vip.as_str(),
            self.id.owner_vip_cached.as_str(),
        ) {
            return None;
        }
        let given: Option<&String> = match node_id {
            Some(n) => if n.as_str().is_empty() {
                None
            } else {
                Some(n)
            },
            None => None,
        };
        let name: String = match given {
            Some(n) => n.clone(),
            None => match self.routing.table.get(vip) {
                Some(e) => e.node_id.clone(),
                None => {
                    let none = String::new();
                    proof {
                        assert(none@ =~= Seq::<char>::empty());
                    }
                    none
                },
            },
        };
        Some(
            RosterChange::Upsert(
                PeerInfo {
                    node_id: name.clone(),
                    name,
                    virtual_ip: vip.clone(),
                    real_ip: ep,
                },
            ),
        )
    }

    /// A peer is gone: the change that is told, if there is one.
    pub fn notify_roster_remove(&self, listening: bool, vip: &String) -> (out: Option<RosterChange>)
        ensures
            maybe_change(out) == removal_told(*self, listening, vip@),
    {
        if self.id.is_owner || !listening {
            None
        } else {
            Some(RosterChange::Remove(vip.clone()))
        }
    }

    fn roster_removals(&self, listening: bool, gone: &Vec<RemovedPeer>) -> (out: Vec<RosterChange>)
        ensures
            change_views(out@) == removals_of(
                *self,
                listening,
                engine_routes::removed_views(gone@),
                gone@.len(),
            ),
    {
        let ghost s = engine_routes::removed_views(gone@);
        let mut out: Vec<RosterChange> = Vec::new();
        let mut i: usize = 0;
        proof {
            assert(change_views(out@) =~= removals_of(*self, listening, s, 0));
        }
        while i < gone.len()
            invariant
                i <= gone.len(),
                s == engine_routes::removed_views(gone@),
                change_views(out@) == removals_of(*self, listening, s, i as nat),
            decreases gone.len() - i,
        {
            let ghost before = out@;
            let told: Option<RosterChange> = self.notify_roster_remove(listening, &gone[i].gone.vip);
            if let Some(c) = told {
                out.push(c);
                proof {
                    assert(change_views(out@) =~= change_views(before).push(c@));
                }
            }
            i = i + 1;
        }
        out
    }

    fn roster_upserts(&self, listening: bool, there: &Vec<AppliedRoute>) -> (out: Vec<RosterChange>)
        requires
            self.wf(),
        ensures
            change_views(out@) == upserts_of(
                *self,
                listening,
                engine_routes::applied_views(there@),
                there@.len(),
            ),
    {
        let ghost s = engine_routes::applied_views(there@);
        let mut out: Vec<RosterChange> = Vec::new();
        let mut i: usize = 0;
        proof {
            assert(change_views(out@) =~= upserts_of(*self, listening, s, 0));
        }
        while i < there.len()
            invariant
                i <= there.len(),
                self.wf(),
                s == engine_routes::applied_views(there@),
                change_views(out@) == upserts_of(*self, listening, s, i as nat),
            decreases there.len() - i,
        {
            let ghost before = out@;
            let r: &AppliedRoute = &there[i];
            let told: Option<RosterChange> = self.notify_roster_upsert(
                listening,
                &r.vip,
                r.ep,
                r.node_id.as_ref(),
            );
            if let Some(c) = told {
                out.push(c);
                proof {
                    assert(change_views(out@) =~= change_views(before).push(c@));
                }
            }
            i = i + 1;
        }
        out
    }

    /// A sync was applied: the changes that are told.
    pub fn roster_changes(&self, listening: bool, fx: &MsynEffects) -> (out: Vec<RosterChange>)
        requires
            self.wf(),
        ensures
            change_views(out@) == sync_told(*self, listening, *fx),
    {
        let mut out: Vec<RosterChange> = self.roster_removals(listening, &fx.removed);
        let mut there: Vec<RosterChange> = self.roster_upserts(listening, &fx.applied);
        let mut gone: Vec<RosterChange> = self.roster_removals(listening, &fx.phantoms);
        let ghost (a, b, c) = (out@, there@, gone@);
        out.append(&mut there);
        out.append(&mut gone);
        proof {
            assert(change_views(out@) =~= change_views(a) + change_views(b) + change_views(c));
        }
        out
    }
}

proof fn upserts_name_others(
    state: EngineState,
    listening: bool,
    s: Seq<engine_routes::AppliedView>,
    n: nat,
    i: int,
)
    requires
        n <= s.len(),
        0 <= i < upserts_of(state, listening, s, n).len(),
    ensures
        upserts_of(state, listening, s, n)[i] matches RosterView::Upsert { virtual_ip, .. }
            && virtual_ip != state.id@.my_vip && virtual_ip != state.id@.owner_vip_cached,
        !state.id.is_owner && listening,
    decreases n,
{
    if n > 0 {
        let rest = upserts_of(state, listening, s, (n - 1) as nat);
        if i < rest.len() {
            upserts_name_others(state, listening, s, (n - 1) as nat, i);
        }
    }
}

proof fn removals_remove(
    state: EngineState,
    listening: bool,
    s: Seq<engine_routes::RemovedView>,
    n: nat,
    i: int,
)
    requires
        n <= s.len(),
        0 <= i < removals_of(state, listening, s, n).len(),
    ensures
        removals_of(state, listening, s, n)[i] is Remove,
        !state.id.is_owner && listening,
    decreases n,
{
    if n > 0 {
        let rest = removals_of(state, listening, s, (n - 1) as nat);
        if i < rest.len() {
            removals_remove(state, listening, s, (n - 1) as nat, i);
        }
    }
}

/// An owner tells nothing of a sync, nor does a node where nobody listens; and no
/// sync puts this node or its owner into the roster.
pub proof fn roster_holds_others(state: EngineState, listening: bool, fx: MsynEffects)
    ensures
        state.id.is_owner || !listening ==> sync_told(state, listening, fx).len() == 0,
        forall|i: int|
            0 <= i < sync_told(state, listening, fx).len() ==> (#[trigger] sync_told(
                state,
                listening,
                fx,
            )[i] matches RosterView::Upsert { virtual_ip, .. } ==> virtual_ip != state.id@.my_vip
                && virtual_ip != state.id@.owner_vip_cached),
{
    let a = engine_routes::removed_views(fx.removed@);
    let b = engine_routes::applied_views(fx.applied@);
    let c = engine_routes::removed_views(fx.phantoms@);
    let ra = removals_of(state, listening, a, a.len());
    let rb = upserts_of(state, listening, b, b.len());
    let rc = removals_of(state, listening, c, c.len());
    let all = sync_told(state, listening, fx);
    assert forall|i: int| 0 <= i < all.len() implies !state.id.is_owner && listening && (
    #[trigger] all[i] matches RosterView::Upsert { virtual_ip, .. } ==> virtual_ip
        != state.id@.my_vip && virtual_ip != state.id@.owner_vip_cached) by {
        if i < ra.len() {
            removals_remove(state, listening, a, a.len(), i);
        } else if i < ra.len() + rb.len() {
            upserts_name_others(state, listening, b, b.len(), i - ra.len());
        } else {
            removals_remove(state, listening, c, c.len(), i - ra.len() - rb.len());
        }
    }
    if state.id.is_owner || !listening {
        if all.len() > 0 {
            assert(all[0] is Upsert || all[0] is Remove);
        }
    }
}

} // verus!
