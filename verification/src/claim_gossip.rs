//! How members of a unit tell each other of their claims: which claim counts,
//! how a member that left stays gone, and which claims are passed on.
//!
//! Times are milliseconds.

use crate::addr::Endpoint;
use crate::claim;
use crate::claim::{claim_vip_valid, local_loses_vip_conflict};
use crate::engine_data;
use crate::engine_ticks;
use crate::engine_ticks::rotate_batch;
use crate::routing;
use crate::table;
use crate::table::{Key, Table};
use crate::text;
use crate::text::{str_eq, str_lt};
use vstd::prelude::*;
use vstd::string::*;

verus! {

/// How many claims of others one message passes on.
pub const CLAIM_GOSSIP_DIGEST_MAX: usize = 32;

/// How many members that left one message tells of.
pub const CLAIM_GOSSIP_LEAVE_TOMBS_MAX: usize = 8;

/// How long a member that left stays gone.
pub const LEAVE_TOMBSTONE_TTL: u64 = 300_000;

/// How long a claim stays out that lost a conflict.
pub const FIGHT_SUPPRESS_TTL: u64 = 30_000;

/// A node's claim to an address.
pub struct ClaimRecord {
    pub node_id: String,
    pub vip: String,
    pub vip_epoch: u64,
    pub ep_hints: Vec<String>,
}

/// A node's claim to an address.
#[verifier::ext_equal]
pub ghost struct ClaimView {
    pub node_id: Seq<char>,
    pub vip: Seq<char>,
    pub vip_epoch: u64,
    pub ep_hints: Seq<Seq<char>>,
}

impl View for ClaimRecord {
    type V = ClaimView;

    open spec fn view(&self) -> ClaimView {
        ClaimView {
            node_id: self.node_id@,
            vip: self.vip@,
            vip_epoch: self.vip_epoch,
            ep_hints: engine_data::names(self.ep_hints@),
        }
    }
}

/// A node left.
pub struct LeaveTombstone {
    pub node_id: String,
    pub vip: String,
    pub vip_epoch: u64,
    pub expires_at: u64,
}

/// A claim lost a conflict.
pub struct FightSuppress {
    pub node_id: String,
    pub vip: String,
    pub vip_epoch: u64,
    pub expires_at: u64,
}

/// A node left, or its claim lost a conflict.
pub ghost struct MarkView {
    pub node_id: Seq<char>,
    pub vip: Seq<char>,
    pub vip_epoch: u64,
    pub expires_at: u64,
}

impl View for LeaveTombstone {
    type V = MarkView;

    open spec fn view(&self) -> MarkView {
        MarkView {
            node_id: self.node_id@,
            vip: self.vip@,
            vip_epoch: self.vip_epoch,
            expires_at: self.expires_at,
        }
    }
}

impl View for FightSuppress {
    type V = MarkView;

    open spec fn view(&self) -> MarkView {
        MarkView {
            node_id: self.node_id@,
            vip: self.vip@,
            vip_epoch: self.vip_epoch,
            expires_at: self.expires_at,
        }
    }
}

/// What became of a claim.
#[derive(Clone, Copy, Debug, PartialEq, Eq, Structural)]
pub enum MergeOutcome {
    Accepted,
    IgnoredStale,
    BlockedByTombstone,
    BlockedByFight,
    Rejected,
}

/// The claims.
pub open spec fn claims_of(m: Map<Seq<char>, ClaimRecord>) -> Map<Seq<char>, ClaimView> {
    m.map_values(|c: ClaimRecord| c@)
}

/// The nodes that left.
pub open spec fn tombs_of(m: Map<Seq<char>, LeaveTombstone>) -> Map<Seq<char>, MarkView> {
    m.map_values(|t: LeaveTombstone| t@)
}

/// The claims that lost.
pub open spec fn fights_of(m: Map<Seq<char>, FightSuppress>) -> Map<Seq<char>, MarkView> {
    m.map_values(|f: FightSuppress| f@)
}

/// Each claim stands under its node.
pub open spec fn claims_ok(m: Map<Seq<char>, ClaimView>) -> bool {
    forall|k: Seq<char>| #[trigger] m.dom().contains(k) ==> m[k].node_id == k
}

/// The node left, and a claim of this epoch is from before that.
pub open spec fn gone(
    tombs: Map<Seq<char>, MarkView>,
    node_id: Seq<char>,
    epoch: u64,
    now: u64,
) -> bool {
    tombs.dom().contains(node_id) && tombs[node_id].expires_at > now && epoch
        <= tombs[node_id].vip_epoch
}

/// The claim lost a conflict a short time ago.
pub open spec fn lost(
    fights: Map<Seq<char>, MarkView>,
    node_id: Seq<char>,
    vip: Seq<char>,
    epoch: u64,
    now: u64,
) -> bool {
    fights.dom().contains(node_id) && fights[node_id].expires_at > now && fights[node_id].vip
        == vip && fights[node_id].vip_epoch == epoch
}

/// A claim that can be looked at.
pub open spec fn well_formed(node_id: Seq<char>, vip: Seq<char>) -> bool {
    node_id.len() > 0 && claim::claim_ok(vip)
}

/// The claims after one more came: per node the claim with the highest epoch
/// counts, and of two with the same epoch the one that was first.
pub open spec fn newest(m: Map<Seq<char>, ClaimView>, c: ClaimView) -> (
    MergeOutcome,
    Map<Seq<char>, ClaimView>,
) {
    let k = c.node_id;
    if !m.dom().contains(k) || c.vip_epoch > m[k].vip_epoch {
        (MergeOutcome::Accepted, m.insert(k, c))
    } else {
        (MergeOutcome::IgnoredStale, m)
    }
}

/// What becomes of a claim, of the claims, and of those that lost.
pub open spec fn merged(
    m: Map<Seq<char>, ClaimView>,
    c: ClaimView,
    tombs: Map<Seq<char>, MarkView>,
    fights: Map<Seq<char>, MarkView>,
    now: u64,
) -> (MergeOutcome, Map<Seq<char>, ClaimView>, Map<Seq<char>, MarkView>) {
    if !well_formed(c.node_id, c.vip) {
        (MergeOutcome::Rejected, m, fights)
    } else if gone(tombs, c.node_id, c.vip_epoch, now) {
        (MergeOutcome::BlockedByTombstone, m, fights)
    } else if lost(fights, c.node_id, c.vip, c.vip_epoch, now) {
        (
            MergeOutcome::BlockedByFight,
            m,
            fights.insert(
                c.node_id,
                MarkView {
                    node_id: c.node_id,
                    vip: c.vip,
                    vip_epoch: c.vip_epoch,
                    expires_at: (now + FIGHT_SUPPRESS_TTL) as u64,
                },
            ),
        )
    } else {
        let (outcome, m1) = newest(m, c);
        (outcome, m1, fights)
    }
}

fn dup_strings(v: &Vec<String>) -> (out: Vec<String>)
    ensures
        engine_data::names(out@) == engine_data::names(v@),
{
    let mut out: Vec<String> = Vec::new();
    let mut i: usize = 0;
    while i < v.len()
        invariant
            i <= v@.len(),
            out@.len() == i,
            forall|j: int| 0 <= j < i ==> (#[trigger] out@[j])@ == v@[j]@,
        decreases v@.len() - i,
    {
        out.push(v[i].clone());
        i += 1;
    }
    proof {
        assert(engine_data::names(out@) =~= engine_data::names(v@));
    }
    out
}

impl ClaimRecord {
    fn dup(&self) -> (out: Self)
        ensures
            out@ == self@,
    {
        ClaimRecord {
            node_id: self.node_id.clone(),
            vip: self.vip.clone(),
            vip_epoch: self.vip_epoch,
            ep_hints: dup_strings(&self.ep_hints),
        }
    }
}

/// Takes a claim: it counts where its node has none yet, or one of a lower epoch.
/// One of the same epoch changes nothing, whether it names the same address or
/// another one.
pub fn merge_claim(
    map: &mut Table<String, ClaimRecord>,
    incoming: ClaimRecord,
    tombs: &Table<String, LeaveTombstone>,
    fight_suppress: &mut Table<String, FightSuppress>,
    now: u64,
) -> (out: MergeOutcome)
    requires
        old(map).wf(),
        tombs.wf(),
        old(fight_suppress).wf(),
        merged(
            claims_of(old(map)@),
            incoming@,
            tombs_of(tombs@),
            fights_of(old(fight_suppress)@),
            now,
        ).0 is BlockedByFight ==> now + FIGHT_SUPPRESS_TTL <= u64::MAX,
    ensures
        final(map).wf(),
        final(fight_suppress).wf(),
        (out, claims_of(final(map)@), fights_of(final(fight_suppress)@)) == merged(
            claims_of(old(map)@),
            incoming@,
            tombs_of(tombs@),
            fights_of(old(fight_suppress)@),
            now,
        ),
        claims_ok(claims_of(old(map)@)) ==> claims_ok(claims_of(final(map)@)),
{
    let ghost m0 = claims_of(map@);
    let ghost f0 = fights_of(fight_suppress@);
    let ghost c = incoming@;
    if str_eq(incoming.node_id.as_str(), "") || !claim_vip_valid(incoming.vip.as_str()) {
        proof {
            reveal_strlit("");
            if incoming.node_id@ == ""@ {
                assert(incoming.node_id@.len() == 0);
            }
        }
        return MergeOutcome::Rejected;
    }
    proof {
        reveal_strlit("");
        if incoming.node_id@.len() == 0 {
            assert(incoming.node_id@ =~= ""@);
        }
    }
    if leave_tombstone_blocks(tombs, incoming.node_id.as_str(), incoming.vip_epoch, now) {
        return MergeOutcome::BlockedByTombstone;
    }
    if fight_suppress_blocks(
        fight_suppress,
        incoming.node_id.as_str(),
        incoming.vip.as_str(),
        incoming.vip_epoch,
        now,
    ) {
        let _ = install_fight_suppress(
            fight_suppress,
            incoming.node_id.as_str(),
            incoming.vip.as_str(),
            incoming.vip_epoch,
            now,
            FIGHT_SUPPRESS_TTL,
        );
        return MergeOutcome::BlockedByFight;
    }
    if let Some(existing) = map.get(&incoming.node_id) {
        if incoming.vip_epoch <= existing.vip_epoch {
            return MergeOutcome::IgnoredStale;
        }
    }
    let key: String = incoming.node_id.clone();
    map.insert(key, incoming);
    proof {
        assert(claims_of(map@) =~= m0.insert(c.node_id, c));
    }
    MergeOutcome::Accepted
}

/// Keeps a claim out that lost a conflict; tells whether it can be a claim at all.
pub fn install_fight_suppress(
    suppress: &mut Table<String, FightSuppress>,
    node_id: &str,
    vip: &str,
    vip_epoch: u64,
    now: u64,
    ttl: u64,
) -> (ok: bool)
    requires
        old(suppress).wf(),
        now + ttl <= u64::MAX,
    ensures
        final(suppress).wf(),
        ok == well_formed(node_id@, vip@),
        fights_of(final(suppress)@) == if ok {
            fights_of(old(suppress)@).insert(
                node_id@,
                MarkView {
                    node_id: node_id@,
                    vip: vip@,
                    vip_epoch,
                    expires_at: (now + ttl) as u64,
                },
            )
        } else {
            fights_of(old(suppress)@)
        },
{
    let ghost f0 = fights_of(suppress@);
    if name_is_empty(node_id) || !claim_vip_valid(vip) {
        return false;
    }
    let mark = FightSuppress {
        node_id: node_id.to_owned(),
        vip: vip.to_owned(),
        vip_epoch,
        expires_at: now + ttl,
    };
    let ghost mv = mark@;
    suppress.insert(node_id.to_owned(), mark);
    proof {
        assert(fights_of(suppress@) =~= f0.insert(node_id@, mv));
    }
    true
}

fn name_is_empty(s: &str) -> (b: bool)
    ensures
        b == (s@.len() == 0),
{
    proof {
        reveal_strlit("");
        if s@.len() == 0 {
            assert(s@ =~= ""@);
        }
    }
    str_eq(s, "")
}

/// Whether the claim lost a conflict a short time ago.
pub fn fight_suppress_blocks(
    suppress: &Table<String, FightSuppress>,
    node_id: &str,
    vip: &str,
    vip_epoch: u64,
    now: u64,
) -> (b: bool)
    requires
        suppress.wf(),
    ensures
        b == lost(fights_of(suppress@), node_id@, vip@, vip_epoch, now),
{
    match suppress.get(&node_id.to_owned()) {
        Some(s) => s.expires_at > now && str_eq(s.vip.as_str(), vip) && s.vip_epoch
            == vip_epoch,
        None => false,
    }
}

/// The marks that count still.
pub open spec fn unexpired(m: Map<Seq<char>, MarkView>, now: u64) -> Map<Seq<char>, MarkView> {
    m.restrict(Set::new(|k: Seq<char>| m.dom().contains(k) && m[k].expires_at > now))
}

/// Forgets the conflicts that are over.
pub fn prune_fight_suppress(suppress: &mut Table<String, FightSuppress>, now: u64)
    requires
        old(suppress).wf(),
    ensures
        final(suppress).wf(),
        fights_of(final(suppress)@) == unexpired(fights_of(old(suppress)@), now),
{
    let ghost s = suppress.entries@;
    let ghost p = |e: (String, FightSuppress)| e.1.expires_at > now;
    let f = |k: &String, v: &FightSuppress| -> (b: bool)
        ensures
            b == (v.expires_at > now),
        { v.expires_at > now };
    suppress.retain_where(f, Ghost(p));
    proof {
        kept_entries(s, p);
        assert(fights_of(suppress@) =~= unexpired(fights_of(table::map_of(s)), now));
    }
}

/// What is kept of a table.
proof fn kept_entries<V>(s: Seq<(String, V)>, p: spec_fn((String, V)) -> bool)
    requires
        table::distinct_keys(s),
        forall|a: (String, V), b: (String, V)| a.1 == b.1 && a.0@ == b.0@ ==> #[trigger] p(a)
            == #[trigger] p(b),
    ensures
        forall|k: Seq<char>| #[trigger]
            table::map_of(s.filter(p)).dom().contains(k) <==> exists|i: int| #[trigger]
                table::key_at(s, k, i) && p(s[i]),
        forall|k: Seq<char>| #[trigger]
            table::map_of(s.filter(p)).dom().contains(k) ==> table::map_of(s).dom().contains(k)
                && table::map_of(s.filter(p))[k] == table::map_of(s)[k],
        forall|i: int|
            0 <= i < s.len() ==> table::map_of(s).dom().contains((#[trigger] s[i]).0@)
                && table::map_of(s)[s[i].0@] == s[i].1,
{
    table::map_of_filter(s, p);
    assert forall|i: int| 0 <= i < s.len() implies table::map_of(s).dom().contains(
        (#[trigger] s[i]).0@,
    ) && table::map_of(s)[s[i].0@] == s[i].1 by {
        table::map_of_at(s, i);
    }
}

/// Forgets the nodes that left long ago.
pub fn prune_leave_tombstones(tombs: &mut Table<String, LeaveTombstone>, now: u64)
    requires
        old(tombs).wf(),
    ensures
        final(tombs).wf(),
        tombs_of(final(tombs)@) == unexpired(tombs_of(old(tombs)@), now),
{
    let ghost s = tombs.entries@;
    let ghost p = |e: (String, LeaveTombstone)| e.1.expires_at > now;
    let f = |k: &String, v: &LeaveTombstone| -> (b: bool)
        ensures
            b == (v.expires_at > now),
        { v.expires_at > now };
    tombs.retain_where(f, Ghost(p));
    proof {
        kept_entries(s, p);
        assert(tombs_of(tombs@) =~= unexpired(tombs_of(table::map_of(s)), now));
    }
}

/// Notes that a node left; tells whether its claim can be one at all.
pub fn install_leave_tombstone(
    tombs: &mut Table<String, LeaveTombstone>,
    node_id: &str,
    vip: &str,
    vip_epoch: u64,
    now: u64,
    ttl: u64,
) -> (ok: bool)
    requires
        old(tombs).wf(),
        now + ttl <= u64::MAX,
    ensures
        final(tombs).wf(),
        ok == well_formed(node_id@, vip@),
        tombs_of(final(tombs)@) == if ok {
            tombs_of(old(tombs)@).insert(
                node_id@,
                MarkView {
                    node_id: node_id@,
                    vip: vip@,
                    vip_epoch,
                    expires_at: (now + ttl) as u64,
                },
            )
        } else {
            tombs_of(old(tombs)@)
        },
{
    let ghost t0 = tombs_of(tombs@);
    if name_is_empty(node_id) || !claim_vip_valid(vip) {
        return false;
    }
    let mark = LeaveTombstone {
        node_id: node_id.to_owned(),
        vip: vip.to_owned(),
        vip_epoch,
        expires_at: now + ttl,
    };
    let ghost mv = mark@;
    tombs.insert(node_id.to_owned(), mark);
    proof {
        assert(tombs_of(tombs@) =~= t0.insert(node_id@, mv));
    }
    true
}

/// Whether the node left, and a claim of this epoch is from before that.
pub fn leave_tombstone_blocks(
    tombs: &Table<String, LeaveTombstone>,
    node_id: &str,
    claim_epoch: u64,
    now: u64,
) -> (b: bool)
    requires
        tombs.wf(),
    ensures
        b == gone(tombs_of(tombs@), node_id@, claim_epoch, now),
{
    match tombs.get(&node_id.to_owned()) {
        Some(t) => t.expires_at > now && claim_epoch <= t.vip_epoch,
        None => false,
    }
}

/// The claim is the node's, as it stands.
pub open spec fn live(
    m: Map<Seq<char>, ClaimView>,
    node_id: Seq<char>,
    vip: Seq<char>,
    epoch: u64,
) -> bool {
    m.dom().contains(node_id) && m[node_id].vip == vip && m[node_id].vip_epoch == epoch
}

/// Whether the claim is the node's, as it stands.
pub fn claim_still_live(
    map: &Table<String, ClaimRecord>,
    node_id: &str,
    vip: &str,
    vip_epoch: u64,
) -> (b: bool)
    requires
        map.wf(),
    ensures
        b == live(claims_of(map@), node_id@, vip@, vip_epoch),
{
    match map.get(&node_id.to_owned()) {
        Some(c) => str_eq(c.vip.as_str(), vip) && c.vip_epoch == vip_epoch,
        None => false,
    }
}

/// Whether a claim that is nothing new can still tell where the node is.
pub fn stale_allows_ep_refresh(
    map: &Table<String, ClaimRecord>,
    node_id: &str,
    vip: &str,
    vip_epoch: u64,
) -> (b: bool)
    requires
        map.wf(),
    ensures
        b == live(claims_of(map@), node_id@, vip@, vip_epoch),
{
    claim_still_live(map, node_id, vip, vip_epoch)
}

/// Forgets a node's claim.
pub fn remove_claim(map: &mut Table<String, ClaimRecord>, node_id: &str) -> (out: Option<
    ClaimRecord,
>)
    requires
        old(map).wf(),
    ensures
        final(map).wf(),
        claims_of(final(map)@) == claims_of(old(map)@).remove(node_id@),
        match out {
            Some(c) => routing::lookup_in(claims_of(old(map)@), node_id@) == Some(c@),
            None => !old(map)@.dom().contains(node_id@),
        },
{
    let ghost m0 = claims_of(map@);
    let out = map.remove(&node_id.to_owned());
    proof {
        assert(claims_of(map@) =~= m0.remove(node_id@));
    }
    out
}

/// Whether the local node has to take another address: another node claims the
/// same one, and wins.
pub fn should_reroll_for_vip_fight(
    local_node_id: &str,
    local_vip: &str,
    remote_node_id: &str,
    remote_vip: &str,
) -> (b: bool)
    ensures
        b == (remote_vip@ == local_vip@ && claim::loses(local_node_id@, remote_node_id@)),
{
    str_eq(remote_vip, local_vip) && local_loses_vip_conflict(local_node_id, remote_node_id)
}

/// The list names exactly the members of a set, each once.
pub open spec fn lists(v: Seq<String>, in_set: spec_fn(Seq<char>) -> bool) -> bool {
    &&& forall|i: int| 0 <= i < v.len() ==> in_set((#[trigger] v[i])@)
    &&& forall|k: Seq<char>| #[trigger]
        in_set(k) ==> exists|i: int| 0 <= i < v.len() && (#[trigger] v[i])@ == k
    &&& forall|i: int, j: int| 0 <= i < j < v.len() ==> (#[trigger] v[i])@ != (#[trigger] v[j])@
}

/// The claims without those that `out` holds of.
pub open spec fn without(m: Map<Seq<char>, ClaimView>, out: spec_fn(Seq<char>) -> bool) -> Map<
    Seq<char>,
    ClaimView,
> {
    m.restrict(Set::new(|k: Seq<char>| m.dom().contains(k) && !out(k)))
}

/// The node claims the address.
pub open spec fn claims_vip(m: Map<Seq<char>, ClaimView>, vip: Seq<char>) -> spec_fn(
    Seq<char>,
) -> bool {
    |k: Seq<char>| m.dom().contains(k) && m[k].vip == vip
}

/// Some other node claims the same address, and wins.
pub open spec fn outdone(m: Map<Seq<char>, ClaimView>) -> spec_fn(Seq<char>) -> bool {
    |k: Seq<char>|
        m.dom().contains(k) && exists|o: Seq<char>| #[trigger]
            m.dom().contains(o) && m[o].vip == m[k].vip && claim::wins(o, k)
}

/// Takes the entries out whose place is marked; names their keys.
fn drop_marked(map: &mut Table<String, ClaimRecord>, marked: &Vec<bool>) -> (out: Vec<String>)
    requires
        old(map).wf(),
        marked@.len() == old(map).entries@.len(),
    ensures
        final(map).wf(),
        forall|q: spec_fn(Seq<char>) -> bool|
            (forall|i: int|
                0 <= i < marked@.len() ==> q((#[trigger] old(map).entries@[i]).0@) == marked@[i])
                && (forall|k: Seq<char>| #[trigger] q(k) ==> old(map)@.dom().contains(k))
                ==> #[trigger] lists(out@, q) && claims_of(final(map)@) == without(
                claims_of(old(map)@),
                q,
            ),
{
    let ghost s = map.entries@;
    let ghost m0 = map@;
    let mut rest: Vec<(String, ClaimRecord)> = Vec::new();
    rest.append(&mut map.entries);
    let mut kept: Vec<(String, ClaimRecord)> = Vec::new();
    let mut out: Vec<String> = Vec::new();
    let ghost mut from: Seq<int> = Seq::empty();
    let ghost mut gone_from: Seq<int> = Seq::empty();
    let mut n: usize = 0;
    let total: usize = marked.len();
    proof {
        assert(rest@ =~= s.skip(0));
    }
    while rest.len() > 0
        invariant
            n <= total,
            total == s.len(),
            rest@ == s.skip(n as int),
            marked@.len() == s.len(),
            from.len() == kept@.len(),
            gone_from.len() == out@.len(),
            forall|i: int|
                0 <= i < kept@.len() ==> 0 <= #[trigger] from[i] < n && kept@[i] == s[from[i]]
                    && !marked@[from[i]],
            forall|i: int, j: int|
                0 <= i < j < kept@.len() ==> #[trigger] from[i] < #[trigger] from[j],
            forall|i: int|
                0 <= i < out@.len() ==> 0 <= #[trigger] gone_from[i] < n && out@[i]@
                    == s[gone_from[i]].0@ && marked@[gone_from[i]],
            forall|i: int, j: int|
                0 <= i < j < out@.len() ==> #[trigger] gone_from[i] < #[trigger] gone_from[j],
            forall|i: int|
                #![trigger marked@[i]]
                0 <= i < n && !marked@[i] ==> exists|j: int|
                    0 <= j < from.len() && #[trigger] from[j] == i,
            forall|i: int|
                #![trigger marked@[i]]
                0 <= i < n && marked@[i] ==> exists|j: int|
                    0 <= j < gone_from.len() && #[trigger] gone_from[j] == i,
        decreases rest@.len(),
    {
        let e = rest.remove(0);
        proof {
            assert(e == s[n as int]);
            assert(rest@ =~= s.skip(n + 1));
        }
        if marked[n] {
            out.push(e.0);
            proof {
                let before = gone_from;
                gone_from = gone_from.push(n as int);
                assert forall|i: int|
                    #![trigger marked@[i]]
                    0 <= i < n + 1 && marked@[i] implies exists|j: int|
                    0 <= j < gone_from.len() && #[trigger] gone_from[j] == i by {
                    if i < n {
                        let j = choose|j: int| 0 <= j < before.len() && #[trigger] before[j] == i;
                        assert(gone_from[j] == i);
                    } else {
                        assert(gone_from[before.len() as int] == i);
                    }
                }
            }
        } else {
            kept.push(e);
            proof {
                let before = from;
                from = from.push(n as int);
                assert forall|i: int|
                    #![trigger marked@[i]]
                    0 <= i < n + 1 && !marked@[i] implies exists|j: int|
                    0 <= j < from.len() && #[trigger] from[j] == i by {
                    if i < n {
                        let j = choose|j: int| 0 <= j < before.len() && #[trigger] before[j] == i;
                        assert(from[j] == i);
                    } else {
                        assert(from[before.len() as int] == i);
                    }
                }
            }
        }
        n += 1;
    }
    map.entries = kept;
    proof {
        let t = map.entries@;
        assert forall|i: int, j: int| 0 <= i < j < t.len() implies (#[trigger] t[i]).0.id() != (
        #[trigger] t[j]).0.id() by {
            assert(from[i] < from[j]);
            assert(s[from[i]].0.id() != s[from[j]].0.id());
        }
        assert forall|q: spec_fn(Seq<char>) -> bool|
            (forall|i: int| 0 <= i < marked@.len() ==> q((#[trigger] s[i]).0@) == marked@[i]) && (
            forall|k: Seq<char>| #[trigger] q(k) ==> m0.dom().contains(k)) implies #[trigger] lists(
            out@,
            q,
        ) && claims_of(map@) == without(claims_of(m0), q) by {
            assert forall|i: int| 0 <= i < out@.len() implies q((#[trigger] out@[i])@) by {
                assert(q(s[gone_from[i]].0@) == marked@[gone_from[i]]);
            }
            assert forall|k: Seq<char>| #[trigger] q(k) implies exists|i: int|
                0 <= i < out@.len() && (#[trigger] out@[i])@ == k by {
                let i = choose|i: int| table::key_at(s, k, i);
                assert(q(s[i].0@) == marked@[i]);
                let j = choose|j: int| 0 <= j < gone_from.len() && #[trigger] gone_from[j] == i;
                assert(out@[j]@ == k);
            }
            assert forall|i: int, j: int| 0 <= i < j < out@.len() implies (#[trigger] out@[i])@ != (
            #[trigger] out@[j])@ by {
                assert(gone_from[i] < gone_from[j]);
                assert(s[gone_from[i]].0.id() != s[gone_from[j]].0.id());
            }
            assert forall|k: Seq<char>| table::map_of(t).dom().contains(k) <==> (
            m0.dom().contains(k) && !q(k)) by {
                if table::has_key(t, k) {
                    let i = choose|i: int| table::key_at(t, k, i);
                    assert(from[i] < n);
                    assert(table::key_at(s, k, from[i]));
                    assert(q(s[from[i]].0@) == marked@[from[i]]);
                }
                if m0.dom().contains(k) && !q(k) {
                    let i = choose|i: int| table::key_at(s, k, i);
                    assert(q(s[i].0@) == marked@[i]);
                    let j = choose|j: int| 0 <= j < from.len() && #[trigger] from[j] == i;
                    assert(table::key_at(t, k, j));
                }
            }
            assert forall|k: Seq<char>| table::map_of(t).dom().contains(k) implies table::map_of(
                t,
            )[k] == m0[k] by {
                let i = choose|i: int| table::key_at(t, k, i);
                table::map_of_at(t, i);
                assert(from[i] < n);
                table::map_of_at(s, from[i]);
            }
            assert(claims_of(map@) =~= without(claims_of(m0), q));
        }
    }
    out
}

/// Forgets all claims to an address; names their nodes.
pub fn remove_claims_for_vip(map: &mut Table<String, ClaimRecord>, vip: &str) -> (out: Vec<String>)
    requires
        old(map).wf(),
    ensures
        final(map).wf(),
        lists(out@, claims_vip(claims_of(old(map)@), vip@)),
        claims_of(final(map)@) == without(
            claims_of(old(map)@),
            claims_vip(claims_of(old(map)@), vip@),
        ),
{
    let ghost m0 = claims_of(map@);
    let ghost s = map.entries@;
    let mut marked: Vec<bool> = Vec::new();
    let mut i: usize = 0;
    while i < map.entries.len()
        invariant
            map.wf(),
            s == map.entries@,
            m0 == claims_of(map@),
            i <= s.len(),
            marked@.len() == i,
            forall|j: int|
                0 <= j < i ==> claims_vip(m0, vip@)((#[trigger] s[j]).0@) == marked@[j],
        decreases s.len() - i,
    {
        proof {
            table::map_of_at(s, i as int);
            assert(m0.dom().contains(s[i as int].0@));
        }
        marked.push(str_eq(map.entries[i].1.vip.as_str(), vip));
        i += 1;
    }
    let ghost q = claims_vip(m0, vip@);
    let out = drop_marked(map, &marked);
    proof {
        assert(lists(out@, q));
    }
    out
}

/// Whether another node claims the same address as the entry at `i`, and wins.
fn is_outdone(map: &Table<String, ClaimRecord>, i: usize) -> (b: bool)
    requires
        map.wf(),
        i < map.entries@.len(),
    ensures
        b == outdone(claims_of(map@))(map.entries@[i as int].0@),
{
    let ghost s = map.entries@;
    let ghost m = claims_of(map@);
    let ghost k = s[i as int].0@;
    proof {
        table::map_of_at(s, i as int);
        assert(m.dom().contains(k) && m[k] == s[i as int].1@);
    }
    let mut j: usize = 0;
    while j < map.entries.len()
        invariant
            map.wf(),
            s == map.entries@,
            m == claims_of(map@),
            i < s.len(),
            k == s[i as int].0@,
            m.dom().contains(k),
            m[k] == s[i as int].1@,
            j <= s.len(),
            forall|x: int|
                0 <= x < j ==> !((#[trigger] s[x]).1.vip@ == s[i as int].1.vip@ && claim::wins(
                    s[x].0@,
                    k,
                )),
        decreases s.len() - j,
    {
        if str_eq(map.entries[j].1.vip.as_str(), map.entries[i].1.vip.as_str()) && str_lt(
            map.entries[j].0.as_str(),
            map.entries[i].0.as_str(),
        ) {
            proof {
                table::map_of_at(s, j as int);
                assert(m.dom().contains(s[j as int].0@));
            }
            return true;
        }
        j += 1;
    }
    proof {
        if outdone(m)(k) {
            let o = choose|o: Seq<char>| #[trigger]
                m.dom().contains(o) && m[o].vip == m[k].vip && claim::wins(o, k);
            let x = choose|x: int| table::key_at(s, o, x);
            table::map_of_at(s, x);
            assert(s[x].0@ == o);
        }
    }
    false
}

/// Settles conflicts: of the nodes that claim the same address only the one with
/// the smallest id keeps its claim. Names those that lost.
pub fn settle_duplicate_vips(map: &mut Table<String, ClaimRecord>) -> (losers: Vec<String>)
    requires
        old(map).wf(),
    ensures
        final(map).wf(),
        lists(losers@, outdone(claims_of(old(map)@))),
        claims_of(final(map)@) == without(
            claims_of(old(map)@),
            outdone(claims_of(old(map)@)),
        ),
{
    let ghost m0 = claims_of(map@);
    let ghost s = map.entries@;
    let mut marked: Vec<bool> = Vec::new();
    let mut i: usize = 0;
    while i < map.entries.len()
        invariant
            map.wf(),
            s == map.entries@,
            m0 == claims_of(map@),
            i <= s.len(),
            marked@.len() == i,
            forall|j: int| 0 <= j < i ==> outdone(m0)((#[trigger] s[j]).0@) == marked@[j],
        decreases s.len() - i,
    {
        marked.push(is_outdone(map, i));
        i += 1;
    }
    let ghost q = outdone(m0);
    let losers = drop_marked(map, &marked);
    proof {
        assert(lists(losers@, q));
    }
    losers
}

/// The claim of another node that did not leave.
pub open spec fn passed_on(
    m: Map<Seq<char>, ClaimView>,
    own: Seq<char>,
    tombs: Map<Seq<char>, MarkView>,
    now: u64,
    k: Seq<char>,
) -> bool {
    m.dom().contains(k) && k != own && !gone(tombs, k, m[k].vip_epoch, now)
}

/// The ids stand in ascending order.
pub open spec fn ids_ascend(v: Seq<ClaimView>) -> bool {
    forall|i: int, j: int|
        0 <= i < j < v.len() ==> text::str_before(
            (#[trigger] v[i]).node_id,
            (#[trigger] v[j]).node_id,
        )
}

/// `v` has exactly the claims that are passed on, in the order of their ids.
pub open spec fn others_in_order(
    v: Seq<ClaimView>,
    m: Map<Seq<char>, ClaimView>,
    own: Seq<char>,
    tombs: Map<Seq<char>, MarkView>,
    now: u64,
) -> bool {
    &&& ids_ascend(v)
    &&& forall|i: int|
        0 <= i < v.len() ==> passed_on(m, own, tombs, now, (#[trigger] v[i]).node_id) && v[i]
            == m[v[i].node_id]
    &&& forall|k: Seq<char>| #[trigger]
        passed_on(m, own, tombs, now, k) ==> exists|i: int|
            0 <= i < v.len() && (#[trigger] v[i]).node_id == k
}

/// Up to `take` elements, from the place `start` on, going round.
pub open spec fn going_round(v: Seq<ClaimView>, start: int, take: int) -> Seq<ClaimView> {
    if v.len() == 0 || take == 0 {
        Seq::empty()
    } else {
        let k = if take < v.len() {
            take
        } else {
            v.len() as int
        };
        Seq::new(k as nat, |i: int| v[(start % v.len() as int + i) % v.len() as int])
    }
}

/// The claims of a list.
pub open spec fn claim_views(v: Seq<ClaimRecord>) -> Seq<ClaimView> {
    Seq::new(v.len(), |i: int| v[i]@)
}

/// Puts a claim in its place among others.
fn insert_by_id(v: &mut Vec<ClaimRecord>, c: ClaimRecord)
    requires
        ids_ascend(claim_views(old(v)@)),
        forall|i: int| 0 <= i < old(v)@.len() ==> (#[trigger] old(v)@[i]).node_id@ != c.node_id@,
    ensures
        ids_ascend(claim_views(final(v)@)),
        exists|p: int|
            0 <= p <= old(v)@.len() && final(v)@ == #[trigger] old(v)@.insert(p, c),
{
    let ghost v0 = v@;
    let mut p: usize = 0;
    while p < v.len() && str_lt(v[p].node_id.as_str(), c.node_id.as_str())
        invariant
            p <= v@.len(),
            v@ == v0,
            forall|i: int|
                0 <= i < p ==> text::str_before((#[trigger] v0[i]).node_id@, c.node_id@),
        decreases v@.len() - p,
    {
        p += 1;
    }
    v.insert(p, c);
    proof {
        let a = claim_views(v0);
        let b = claim_views(v@);
        assert(v@ == v0.insert(p as int, c));
        if p < v0.len() {
            text::str_before_total(v0[p as int].node_id@, c.node_id@);
        }
        assert forall|i: int, j: int| 0 <= i < j < b.len() implies text::str_before(
            (#[trigger] b[i]).node_id,
            (#[trigger] b[j]).node_id,
        ) by {
            if j < p {
                assert(text::str_before(a[i].node_id, a[j].node_id));
            } else if j == p {
                assert(text::str_before(v0[i].node_id@, c.node_id@));
            } else {
                if i < p {
                    assert(text::str_before(a[i].node_id, a[j - 1].node_id));
                } else if i == p {
                    if j - 1 > p {
                        assert(text::str_before(a[p as int].node_id, a[j - 1].node_id));
                        text::str_before_transitive(
                            c.node_id@,
                            a[p as int].node_id,
                            a[j - 1].node_id,
                        );
                    }
                } else {
                    assert(text::str_before(a[i - 1].node_id, a[j - 1].node_id));
                }
            }
        }
    }
}

/// The id is in the list.
#[verifier::opaque]
spec fn listed(ids: Seq<Seq<char>>, k: Seq<char>) -> bool {
    exists|x: int| 0 <= x < ids.len() && #[trigger] ids[x] == k
}

/// The id is the key of one of the first `n` entries.
#[verifier::opaque]
spec fn met<V>(s: Seq<(String, V)>, n: int, k: Seq<char>) -> bool {
    exists|j: int| 0 <= j < n && (#[trigger] s[j]).0@ == k
}

proof fn listed_after_insert(ids: Seq<Seq<char>>, p: int, new: Seq<char>, k: Seq<char>)
    requires
        0 <= p <= ids.len(),
    ensures
        listed(ids.insert(p, new), k) == (listed(ids, k) || k == new),
{
    reveal(listed);
    let out = ids.insert(p, new);
    if listed(ids, k) {
        let x = choose|x: int| 0 <= x < ids.len() && #[trigger] ids[x] == k;
        if x < p {
            assert(out[x] == k);
        } else {
            assert(out[x + 1] == k);
        }
    }
    assert(out[p] == new);
    if listed(out, k) && k != new {
        let x = choose|x: int| 0 <= x < out.len() && #[trigger] out[x] == k;
        if x < p {
            assert(ids[x] == k);
        } else {
            assert(ids[x - 1] == k);
        }
    }
}

proof fn met_after_one_more<V>(s: Seq<(String, V)>, n: int, k: Seq<char>)
    requires
        0 <= n < s.len(),
    ensures
        met(s, n + 1, k) == (met(s, n, k) || k == s[n].0@),
{
    reveal(met);
    if met(s, n, k) {
        let j = choose|j: int| 0 <= j < n && (#[trigger] s[j]).0@ == k;
        assert(s[j].0@ == k);
    }
}

/// A key is not among those of the entries before it.
proof fn key_is_new<V>(s: Seq<(String, V)>, n: int)
    requires
        table::distinct_keys(s),
        0 <= n < s.len(),
    ensures
        !met(s, n, s[n].0@),
{
    reveal(met);
    if met(s, n, s[n].0@) {
        let j = choose|j: int| 0 <= j < n && (#[trigger] s[j]).0@ == s[n].0@;
        assert(s[j].0.id() != s[n].0.id());
    }
}

spec fn claim_ids(v: Seq<ClaimRecord>) -> Seq<Seq<char>> {
    Seq::new(v.len(), |i: int| v[i].node_id@)
}

spec fn mark_ids(v: Seq<LeaveTombstone>) -> Seq<Seq<char>> {
    Seq::new(v.len(), |i: int| v[i].node_id@)
}

/// `out` has the claims among the first `n` entries that are passed on.
spec fn others_up_to(
    out: Seq<ClaimRecord>,
    s: Seq<(String, ClaimRecord)>,
    n: int,
    m: Map<Seq<char>, ClaimView>,
    o: Seq<char>,
    t: Map<Seq<char>, MarkView>,
    now: u64,
) -> bool {
    &&& forall|x: int|
        0 <= x < out.len() ==> passed_on(m, o, t, now, (#[trigger] out[x]).node_id@) && out[x]@
            == m[out[x].node_id@] && met(s, n, out[x].node_id@)
    &&& forall|j: int|
        0 <= j < n && passed_on(m, o, t, now, (#[trigger] s[j]).0@) ==> listed(
            claim_ids(out),
            s[j].0@,
        )
}

proof fn one_more_claim(
    out: Seq<ClaimRecord>,
    s: Seq<(String, ClaimRecord)>,
    n: int,
    m: Map<Seq<char>, ClaimView>,
    o: Seq<char>,
    t: Map<Seq<char>, MarkView>,
    now: u64,
    p: int,
    c: ClaimRecord,
)
    requires
        others_up_to(out, s, n, m, o, t, now),
        0 <= n < s.len(),
        0 <= p <= out.len(),
        c.node_id@ == s[n].0@,
        c@ == m[s[n].0@],
        passed_on(m, o, t, now, s[n].0@),
    ensures
        others_up_to(out.insert(p, c), s, n + 1, m, o, t, now),
{
    let out1 = out.insert(p, c);
    assert(claim_ids(out1) =~= claim_ids(out).insert(p, c.node_id@));
    assert forall|x: int| 0 <= x < out1.len() implies passed_on(
        m,
        o,
        t,
        now,
        (#[trigger] out1[x]).node_id@,
    ) && out1[x]@ == m[out1[x].node_id@] && met(s, n + 1, out1[x].node_id@) by {
        met_after_one_more(s, n, out1[x].node_id@);
        if x < p {
            assert(out1[x] == out[x]);
        } else if x > p {
            assert(out1[x] == out[x - 1]);
        }
    }
    assert forall|j: int|
        0 <= j < n + 1 && passed_on(m, o, t, now, (#[trigger] s[j]).0@) implies listed(
        claim_ids(out1),
        s[j].0@,
    ) by {
        listed_after_insert(claim_ids(out), p, c.node_id@, s[j].0@);
    }
}

proof fn no_more_claim(
    out: Seq<ClaimRecord>,
    s: Seq<(String, ClaimRecord)>,
    n: int,
    m: Map<Seq<char>, ClaimView>,
    o: Seq<char>,
    t: Map<Seq<char>, MarkView>,
    now: u64,
)
    requires
        others_up_to(out, s, n, m, o, t, now),
        0 <= n < s.len(),
        !passed_on(m, o, t, now, s[n].0@),
    ensures
        others_up_to(out, s, n + 1, m, o, t, now),
{
    assert forall|x: int| 0 <= x < out.len() implies passed_on(
        m,
        o,
        t,
        now,
        (#[trigger] out[x]).node_id@,
    ) && out[x]@ == m[out[x].node_id@] && met(s, n + 1, out[x].node_id@) by {
        met_after_one_more(s, n, out[x].node_id@);
    }
}

/// The claims of others that are passed on, in the order of their ids.
fn others_sorted(
    own: &ClaimRecord,
    map: &Table<String, ClaimRecord>,
    tombs: &Table<String, LeaveTombstone>,
    now: u64,
) -> (out: Vec<ClaimRecord>)
    requires
        map.wf(),
        tombs.wf(),
        claims_ok(claims_of(map@)),
    ensures
        others_in_order(
            claim_views(out@),
            claims_of(map@),
            own.node_id@,
            tombs_of(tombs@),
            now,
        ),
{
    let ghost s = map.entries@;
    let ghost m = claims_of(map@);
    let ghost o = own.node_id@;
    let ghost t = tombs_of(tombs@);
    let mut out: Vec<ClaimRecord> = Vec::new();
    let mut i: usize = 0;
    while i < map.entries.len()
        invariant
            map.wf(),
            tombs.wf(),
            s == map.entries@,
            m == claims_of(map@),
            o == own.node_id@,
            t == tombs_of(tombs@),
            claims_ok(m),
            i <= s.len(),
            ids_ascend(claim_views(out@)),
            others_up_to(out@, s, i as int, m, o, t, now),
        decreases s.len() - i,
    {
        let e = &map.entries[i];
        let ghost k = s[i as int].0@;
        proof {
            table::map_of_at(s, i as int);
            assert(m.dom().contains(k) && m[k] == s[i as int].1@);
        }
        let ghost before = out@;
        if !str_eq(e.1.node_id.as_str(), own.node_id.as_str()) && !leave_tombstone_blocks(
            tombs,
            e.1.node_id.as_str(),
            e.1.vip_epoch,
            now,
        ) {
            let c = e.1.dup();
            proof {
                assert(c@ == m[k]);
                assert(c.node_id@ == k);
                key_is_new(s, i as int);
            }
            insert_by_id(&mut out, c);
            proof {
                let p = choose|p: int|
                    0 <= p <= before.len() && out@ == #[trigger] before.insert(p, c);
                one_more_claim(before, s, i as int, m, o, t, now, p, c);
            }
        } else {
            proof {
                no_more_claim(before, s, i as int, m, o, t, now);
            }
        }
        i += 1;
    }
    proof {
        let v = claim_views(out@);
        assert forall|x: int| 0 <= x < v.len() implies passed_on(
            m,
            o,
            t,
            now,
            (#[trigger] v[x]).node_id,
        ) && v[x] == m[v[x].node_id] by {
            assert(v[x].node_id == out@[x].node_id@);
        }
        assert forall|k: Seq<char>| #[trigger] passed_on(m, o, t, now, k) implies exists|x: int|
            0 <= x < v.len() && (#[trigger] v[x]).node_id == k by {
            let j = choose|j: int| table::key_at(s, k, j);
            assert(s[j].0@ == k);
            reveal(listed);
            let x = choose|x: int|
                0 <= x < claim_ids(out@).len() && #[trigger] claim_ids(out@)[x] == k;
            assert(v[x].node_id == k);
        }
    }
    out
}

/// The claims to tell others of: the own one, then up to `max_others` others.
pub fn build_gossip_digest(
    own: &ClaimRecord,
    map: &Table<String, ClaimRecord>,
    tombs: &Table<String, LeaveTombstone>,
    now: u64,
    max_others: usize,
) -> (out: Vec<ClaimRecord>)
    requires
        map.wf(),
        tombs.wf(),
        claims_ok(claims_of(map@)),
    ensures
        digest_done(
            own@,
            claims_of(map@),
            tombs_of(tombs@),
            now,
            max_others,
            0,
            claim_views(out@),
        ),
{
    build_gossip_digest_rotated(own, map, tombs, now, max_others, 0)
}

/// The claims to tell others of: the own one, then up to `max_others` others in
/// the order of their ids, from the place `start_idx` on, going round.
pub open spec fn digest_done(
    own: ClaimView,
    m: Map<Seq<char>, ClaimView>,
    tombs: Map<Seq<char>, MarkView>,
    now: u64,
    max_others: usize,
    start_idx: usize,
    out: Seq<ClaimView>,
) -> bool {
    exists|v: Seq<ClaimView>| #[trigger]
        others_in_order(v, m, own.node_id, tombs, now) && out == seq![own] + going_round(
            v,
            start_idx as int,
            max_others as int,
        )
}

/// The claims to tell others of, from a place on.
pub fn build_gossip_digest_rotated(
    own: &ClaimRecord,
    map: &Table<String, ClaimRecord>,
    tombs: &Table<String, LeaveTombstone>,
    now: u64,
    max_others: usize,
    start_idx: usize,
) -> (out: Vec<ClaimRecord>)
    requires
        map.wf(),
        tombs.wf(),
        claims_ok(claims_of(map@)),
    ensures
        digest_done(
            own@,
            claims_of(map@),
            tombs_of(tombs@),
            now,
            max_others,
            start_idx,
            claim_views(out@),
        ),
{
    let others: Vec<ClaimRecord> = others_sorted(own, map, tombs, now);
    let ghost v = claim_views(others@);
    let ghost want = going_round(v, start_idx as int, max_others as int);
    let mut out: Vec<ClaimRecord> = Vec::new();
    out.push(own.dup());
    let n: usize = others.len();
    if n == 0 || max_others == 0 {
        proof {
            assert(claim_views(out@) =~= seq![own@] + want);
            assert(others_in_order(v, claims_of(map@), own@.node_id, tombs_of(tombs@), now));
        }
        return out;
    }
    let k: usize = if max_others < n {
        max_others
    } else {
        n
    };
    let start: usize = start_idx % n;
    let mut at: usize = start;
    let mut i: usize = 0;
    proof {
        vstd::arithmetic::div_mod::lemma_small_mod(start as nat, n as nat);
        assert(claim_views(out@) =~= seq![own@] + want.take(0));
    }
    while i < k
        invariant
            n == others@.len(),
            n > 0,
            v == claim_views(others@),
            want == going_round(v, start_idx as int, max_others as int),
            want.len() == k,
            k <= n,
            i <= k,
            start == start_idx % n,
            at < n,
            at == (start + i) % n as int,
            max_others > 0,
            claim_views(out@) == seq![own@] + want.take(i as int),
        decreases k - i,
    {
        let ghost before = claim_views(out@);
        let c = others[at].dup();
        proof {
            assert(c@ == want[i as int]);
        }
        out.push(c);
        proof {
            assert(claim_views(out@) =~= before.push(c@));
            assert(seq![own@] + want.take(i + 1) =~= (seq![own@] + want.take(i as int)).push(
                want[i as int],
            ));
            vstd::arithmetic::div_mod::lemma_add_mod_noop(start + i, 1, n as int);
            if at + 1 < n {
                vstd::arithmetic::div_mod::lemma_small_mod((at + 1) as nat, n as nat);
            } else {
                vstd::arithmetic::div_mod::lemma_mod_self_0(n as int);
            }
            if n > 1 {
                vstd::arithmetic::div_mod::lemma_small_mod(1, n as nat);
            }
        }
        at = if at + 1 < n {
            at + 1
        } else {
            0
        };
        i += 1;
    }
    proof {
        assert(want.take(k as int) =~= want);
        assert(others_in_order(v, claims_of(map@), own@.node_id, tombs_of(tombs@), now));
    }
    out
}

/// The marks of a list.
pub open spec fn mark_views(v: Seq<LeaveTombstone>) -> Seq<MarkView> {
    Seq::new(v.len(), |i: int| v[i]@)
}

/// The nodes that left stand in the order in which they are forgotten, the last
/// first.
pub open spec fn latest_first(v: Seq<MarkView>) -> bool {
    forall|i: int, j: int|
        0 <= i < j < v.len() ==> (#[trigger] v[i]).expires_at >= (#[trigger] v[j]).expires_at
}

/// The mark counts still.
pub open spec fn counts(m: Map<Seq<char>, MarkView>, now: u64, k: Seq<char>) -> bool {
    m.dom().contains(k) && m[k].expires_at > now
}

/// `v` has exactly the nodes that left and count still, the last first.
pub open spec fn leavers_in_order(v: Seq<MarkView>, m: Map<Seq<char>, MarkView>, now: u64) -> bool {
    &&& latest_first(v)
    &&& forall|i: int|
        0 <= i < v.len() ==> counts(m, now, (#[trigger] v[i]).node_id) && v[i] == m[v[i].node_id]
    &&& forall|k: Seq<char>| #[trigger]
        counts(m, now, k) ==> exists|i: int| 0 <= i < v.len() && (#[trigger] v[i]).node_id == k
    &&& forall|i: int, j: int|
        0 <= i < j < v.len() ==> (#[trigger] v[i]).node_id != (#[trigger] v[j]).node_id
}

/// Each mark stands under its node.
pub open spec fn marks_ok(m: Map<Seq<char>, MarkView>) -> bool {
    forall|k: Seq<char>| #[trigger] m.dom().contains(k) ==> m[k].node_id == k
}

impl LeaveTombstone {
    fn dup(&self) -> (out: Self)
        ensures
            out@ == self@,
    {
        LeaveTombstone {
            node_id: self.node_id.clone(),
            vip: self.vip.clone(),
            vip_epoch: self.vip_epoch,
            expires_at: self.expires_at,
        }
    }
}

/// Puts a node that left in its place among others.
fn insert_by_time(v: &mut Vec<LeaveTombstone>, c: LeaveTombstone)
    requires
        latest_first(mark_views(old(v)@)),
    ensures
        latest_first(mark_views(final(v)@)),
        exists|p: int|
            0 <= p <= old(v)@.len() && final(v)@ == #[trigger] old(v)@.insert(p, c),
{
    let ghost v0 = v@;
    let mut p: usize = 0;
    while p < v.len() && v[p].expires_at >= c.expires_at
        invariant
            p <= v@.len(),
            v@ == v0,
            forall|i: int| 0 <= i < p ==> (#[trigger] v0[i]).expires_at >= c.expires_at,
        decreases v@.len() - p,
    {
        p += 1;
    }
    v.insert(p, c);
    proof {
        let a = mark_views(v0);
        let b = mark_views(v@);
        assert(v@ == v0.insert(p as int, c));
        assert forall|i: int, j: int| 0 <= i < j < b.len() implies (#[trigger] b[i]).expires_at >= (
        #[trigger] b[j]).expires_at by {
            if j < p {
                assert(a[i].expires_at >= a[j].expires_at);
            } else if j == p {
                assert(v0[i].expires_at >= c.expires_at);
            } else if i < p {
                assert(a[i].expires_at >= a[j - 1].expires_at);
            } else if i == p {
                if j - 1 > p {
                    assert(a[p as int].expires_at >= a[j - 1].expires_at);
                }
            } else {
                assert(a[i - 1].expires_at >= a[j - 1].expires_at);
            }
        }
    }
}

/// `out` has those among the first `n` entries that count still, each once.
spec fn leavers_up_to(
    out: Seq<LeaveTombstone>,
    s: Seq<(String, LeaveTombstone)>,
    n: int,
    m: Map<Seq<char>, MarkView>,
    now: u64,
) -> bool {
    &&& forall|x: int|
        0 <= x < out.len() ==> counts(m, now, (#[trigger] out[x]).node_id@) && out[x]@
            == m[out[x].node_id@] && met(s, n, out[x].node_id@)
    &&& forall|j: int|
        0 <= j < n && counts(m, now, (#[trigger] s[j]).0@) ==> listed(mark_ids(out), s[j].0@)
    &&& forall|x: int, y: int|
        0 <= x < y < out.len() ==> (#[trigger] out[x]).node_id@ != (#[trigger] out[y]).node_id@
}

proof fn one_more_leaver(
    out: Seq<LeaveTombstone>,
    s: Seq<(String, LeaveTombstone)>,
    n: int,
    m: Map<Seq<char>, MarkView>,
    now: u64,
    p: int,
    c: LeaveTombstone,
)
    requires
        leavers_up_to(out, s, n, m, now),
        0 <= n < s.len(),
        0 <= p <= out.len(),
        c.node_id@ == s[n].0@,
        c@ == m[s[n].0@],
        counts(m, now, s[n].0@),
        !met(s, n, s[n].0@),
    ensures
        leavers_up_to(out.insert(p, c), s, n + 1, m, now),
{
    let out1 = out.insert(p, c);
    assert(mark_ids(out1) =~= mark_ids(out).insert(p, c.node_id@));
    assert forall|x: int| 0 <= x < out1.len() implies counts(m, now, (#[trigger] out1[x]).node_id@)
        && out1[x]@ == m[out1[x].node_id@] && met(s, n + 1, out1[x].node_id@) by {
        met_after_one_more(s, n, out1[x].node_id@);
        if x < p {
            assert(out1[x] == out[x]);
        } else if x > p {
            assert(out1[x] == out[x - 1]);
        }
    }
    assert forall|j: int| 0 <= j < n + 1 && counts(m, now, (#[trigger] s[j]).0@) implies listed(
        mark_ids(out1),
        s[j].0@,
    ) by {
        listed_after_insert(mark_ids(out), p, c.node_id@, s[j].0@);
    }
    assert forall|x: int, y: int| 0 <= x < y < out1.len() implies (#[trigger] out1[x]).node_id@ != (
    #[trigger] out1[y]).node_id@ by {
        let a = if x < p {
            x
        } else {
            x - 1
        };
        let b = if y < p {
            y
        } else {
            y - 1
        };
        if x == p {
            assert(out1[y] == out[b]);
        } else if y == p {
            assert(out1[x] == out[a]);
        } else {
            assert(out1[x] == out[a] && out1[y] == out[b]);
        }
    }
}

proof fn no_more_leaver(
    out: Seq<LeaveTombstone>,
    s: Seq<(String, LeaveTombstone)>,
    n: int,
    m: Map<Seq<char>, MarkView>,
    now: u64,
)
    requires
        leavers_up_to(out, s, n, m, now),
        0 <= n < s.len(),
        !counts(m, now, s[n].0@),
    ensures
        leavers_up_to(out, s, n + 1, m, now),
{
    assert forall|x: int| 0 <= x < out.len() implies counts(m, now, (#[trigger] out[x]).node_id@)
        && out[x]@ == m[out[x].node_id@] && met(s, n + 1, out[x].node_id@) by {
        met_after_one_more(s, n, out[x].node_id@);
    }
}

/// The nodes that left to tell others of: up to `max`, those that left last.
pub fn select_leave_tombs_for_gossip(
    tombs: &Table<String, LeaveTombstone>,
    now: u64,
    max: usize,
) -> (out: Vec<LeaveTombstone>)
    requires
        tombs.wf(),
        marks_ok(tombs_of(tombs@)),
    ensures
        exists|v: Seq<MarkView>| #[trigger]
            leavers_in_order(v, tombs_of(tombs@), now) && mark_views(out@) == v.take(
                if max < v.len() {
                    max as int
                } else {
                    v.len() as int
                },
            ),
{
    let ghost s = tombs.entries@;
    let ghost m = tombs_of(tombs@);
    let mut all: Vec<LeaveTombstone> = Vec::new();
    let mut i: usize = 0;
    while i < tombs.entries.len()
        invariant
            tombs.wf(),
            s == tombs.entries@,
            m == tombs_of(tombs@),
            marks_ok(m),
            i <= s.len(),
            latest_first(mark_views(all@)),
            leavers_up_to(all@, s, i as int, m, now),
        decreases s.len() - i,
    {
        let e = &tombs.entries[i];
        let ghost k = s[i as int].0@;
        proof {
            table::map_of_at(s, i as int);
            assert(m.dom().contains(k) && m[k] == s[i as int].1@);
        }
        let ghost before = all@;
        if e.1.expires_at > now {
            let c = e.1.dup();
            proof {
                assert(c.node_id@ == k);
                key_is_new(s, i as int);
            }
            insert_by_time(&mut all, c);
            proof {
                let p = choose|p: int|
                    0 <= p <= before.len() && all@ == #[trigger] before.insert(p, c);
                one_more_leaver(before, s, i as int, m, now, p, c);
            }
        } else {
            proof {
                no_more_leaver(before, s, i as int, m, now);
            }
        }
        i += 1;
    }
    let ghost v = mark_views(all@);
    proof {
        assert forall|x: int| 0 <= x < v.len() implies counts(m, now, (#[trigger] v[x]).node_id)
            && v[x] == m[v[x].node_id] by {
            assert(v[x].node_id == all@[x].node_id@);
        }
        assert forall|k: Seq<char>| #[trigger] counts(m, now, k) implies exists|x: int|
            0 <= x < v.len() && (#[trigger] v[x]).node_id == k by {
            let j = choose|j: int| table::key_at(s, k, j);
            assert(s[j].0@ == k);
            reveal(listed);
            let x = choose|x: int|
                0 <= x < mark_ids(all@).len() && #[trigger] mark_ids(all@)[x] == k;
            assert(v[x].node_id == k);
        }
        assert forall|x: int, y: int| 0 <= x < y < v.len() implies (#[trigger] v[x]).node_id != (
        #[trigger] v[y]).node_id by {
            assert(all@[x].node_id@ != all@[y].node_id@);
        }
        assert(leavers_in_order(v, m, now));
    }
    all.truncate(max);
    proof {
        assert(mark_views(all@) =~= v.take(if max < v.len() {
            max as int
        } else {
            v.len() as int
        }));
    }
    all
}

/// Up to `cap` endpoints, from the place `cursor` on, going round.
pub fn rotate_endpoints(eps: &Vec<Endpoint>, cursor: usize, cap: usize) -> (out: Vec<Endpoint>)
    ensures
        out@ == if eps@.len() == 0 {
            Seq::empty()
        } else {
            engine_ticks::batch_after(eps@, cursor as int, cap as int)
        },
{
    let out = rotate_batch(eps, cursor, cap).0;
    proof {
        if eps@.len() == 0 {
            assert(out@ =~= Seq::<Endpoint>::empty());
        }
    }
    out
}

/// After conflicts are settled, no address is claimed twice.
pub proof fn settled_addresses_are_distinct(
    m: Map<Seq<char>, ClaimView>,
    a: Seq<char>,
    b: Seq<char>,
)
    requires
        without(m, outdone(m)).dom().contains(a),
        without(m, outdone(m)).dom().contains(b),
        a != b,
    ensures
        m[a].vip != m[b].vip,
{
    if m[a].vip == m[b].vip {
        text::str_before_total(a, b);
        if text::str_before(a, b) {
            assert(m.dom().contains(a));
            assert(outdone(m)(b));
        } else {
            assert(m.dom().contains(b));
            assert(outdone(m)(a));
        }
    }
}

/// Settling a second time changes nothing.
pub proof fn settling_is_stable(m: Map<Seq<char>, ClaimView>)
    ensures
        ({
            let n = without(m, outdone(m));
            without(n, outdone(n)) == n
        }),
{
    let n = without(m, outdone(m));
    assert forall|k: Seq<char>| n.dom().contains(k) implies !outdone(n)(k) by {
        if outdone(n)(k) {
            let o = choose|o: Seq<char>| #[trigger]
                n.dom().contains(o) && n[o].vip == n[k].vip && claim::wins(o, k);
            assert(m.dom().contains(o));
            assert(outdone(m)(k));
        }
    }
    assert(without(n, outdone(n)) =~= n);
}

/// The epoch of a node's claim never goes down, and a claim is never forgotten
/// because another one comes.
pub proof fn epochs_never_fall(
    m: Map<Seq<char>, ClaimView>,
    c: ClaimView,
    tombs: Map<Seq<char>, MarkView>,
    fights: Map<Seq<char>, MarkView>,
    now: u64,
    k: Seq<char>,
)
    requires
        m.dom().contains(k),
    ensures
        merged(m, c, tombs, fights, now).1.dom().contains(k),
        merged(m, c, tombs, fights, now).1[k].vip_epoch >= m[k].vip_epoch,
        k != c.node_id ==> merged(m, c, tombs, fights, now).1[k] == m[k],
{
}

/// The epoch of a node's claim, where it has one.
pub open spec fn epoch_at(m: Map<Seq<char>, ClaimView>, k: Seq<char>) -> int {
    if m.dom().contains(k) {
        m[k].vip_epoch as int
    } else {
        -1
    }
}

/// A claim that neither a departure nor a lost conflict keeps out.
pub open spec fn admitted(
    c: ClaimView,
    tombs: Map<Seq<char>, MarkView>,
    fights: Map<Seq<char>, MarkView>,
    now: u64,
) -> bool {
    well_formed(c.node_id, c.vip) && !gone(tombs, c.node_id, c.vip_epoch, now) && !lost(
        fights,
        c.node_id,
        c.vip,
        c.vip_epoch,
        now,
    )
}

/// Claims of different nodes, or of different epochs, can come in either order: the
/// claims are the same after both, and the highest epoch counts.
pub proof fn order_of_claims_does_not_matter(
    m: Map<Seq<char>, ClaimView>,
    a: ClaimView,
    b: ClaimView,
    tombs: Map<Seq<char>, MarkView>,
    fights: Map<Seq<char>, MarkView>,
    now: u64,
)
    requires
        a.node_id != b.node_id || a.vip_epoch != b.vip_epoch,
        admitted(a, tombs, fights, now),
        admitted(b, tombs, fights, now),
    ensures
        ({
            let ab = merged(merged(m, a, tombs, fights, now).1, b, tombs, fights, now).1;
            let ba = merged(merged(m, b, tombs, fights, now).1, a, tombs, fights, now).1;
            &&& ab == ba
            &&& ab.dom().contains(a.node_id)
            &&& a.node_id == b.node_id ==> ab[a.node_id].vip_epoch == vstd::math::max(
                vstd::math::max(a.vip_epoch as int, b.vip_epoch as int),
                epoch_at(m, a.node_id),
            )
        }),
{
    let ab = merged(merged(m, a, tombs, fights, now).1, b, tombs, fights, now).1;
    let ba = merged(merged(m, b, tombs, fights, now).1, a, tombs, fights, now).1;
    assert(ab =~= ba);
}

/// A claim that lost a conflict stays out as long as it keeps coming: each time
/// the time starts anew.
pub proof fn losing_claim_stays_out(
    m: Map<Seq<char>, ClaimView>,
    c: ClaimView,
    tombs: Map<Seq<char>, MarkView>,
    fights: Map<Seq<char>, MarkView>,
    now: u64,
    later: u64,
)
    requires
        now + FIGHT_SUPPRESS_TTL <= u64::MAX,
        merged(m, c, tombs, fights, now).0 == MergeOutcome::BlockedByFight,
        now <= later < now + FIGHT_SUPPRESS_TTL,
        !gone(tombs, c.node_id, c.vip_epoch, later),
    ensures
        ({
            let f1 = merged(m, c, tombs, fights, now).2;
            merged(m, c, tombs, f1, later).0 == MergeOutcome::BlockedByFight
        }),
{
}

} // verus!
