//! What holds of claims for addresses, and of the keys of a network.

use crate::addr::Endpoint;
use crate::claim;
use crate::claim_gossip;
use crate::claim_gossip::{ClaimView, MarkView, MergeOutcome};
use crate::keys;
use crate::keys::{CryptoPool, Key, KeyRef};
use crate::text;
use vstd::prelude::*;

verus! {

/// Of all nodes that claim an address, that with the smallest id keeps it: a node's claim
/// stands after conflicts are settled exactly where no smaller id claims the same address,
/// and a claim that stands is what it was.
pub proof fn smallest_id_keeps_the_address(m: Map<Seq<char>, ClaimView>, k: Seq<char>)
    ensures
        ({
            let n = claim_gossip::without(m, claim_gossip::outdone(m));
            &&& n.dom().contains(k) <==> m.dom().contains(k) && forall|o: Seq<char>| #[trigger]
                m.dom().contains(o) && m[o].vip == m[k].vip ==> !text::str_before(o, k)
            &&& n.dom().contains(k) ==> n[k] == m[k]
        }),
{
}

/// No address becomes free because a conflict over it is settled: some node that claimed it
/// before claims it still.
pub proof fn settled_addresses_stay_claimed(m: Map<Seq<char>, ClaimView>, k: Seq<char>)
    requires
        m.dom().finite(),
        m.dom().contains(k),
    ensures
        exists|o: Seq<char>| #[trigger]
            claim_gossip::without(m, claim_gossip::outdone(m)).dom().contains(o) && m[o].vip
                == m[k].vip,
{
    let set = m.dom().filter(|o: Seq<char>| m[o].vip == m[k].vip);
    assert(set.contains(k));
    m.dom().lemma_len_filter(|o: Seq<char>| m[o].vip == m[k].vip);
    let o = smallest_of(set);
    smallest_id_keeps_the_address(m, o);
    assert forall|x: Seq<char>| #[trigger] m.dom().contains(x) && m[x].vip == m[o].vip
        implies !text::str_before(x, o) by {
        assert(set.contains(x));
    }
}

proof fn smallest_of(s: Set<Seq<char>>) -> (o: Seq<char>)
    requires
        s.finite(),
        s.len() > 0,
    ensures
        s.contains(o),
        forall|x: Seq<char>| #[trigger] s.contains(x) ==> !text::str_before(x, o),
    decreases s.len(),
{
    let a = s.choose();
    let t = s.remove(a);
    text::str_before_irreflexive(a);
    if t.len() == 0 {
        assert forall|x: Seq<char>| #[trigger] s.contains(x) implies !text::str_before(x, a) by {
            if x != a {
                assert(t.contains(x));
                assert(t =~= Set::empty());
            }
        }
        a
    } else {
        let b = smallest_of(t);
        if text::str_before(a, b) {
            assert forall|x: Seq<char>| #[trigger] s.contains(x) implies !text::str_before(x, a) by {
                if x != a && text::str_before(x, a) {
                    assert(t.contains(x));
                    text::str_before_transitive(x, a, b);
                }
            }
            a
        } else {
            assert forall|x: Seq<char>| #[trigger] s.contains(x) implies !text::str_before(x, b) by {
                if x != a {
                    assert(t.contains(x));
                }
            }
            b
        }
    }
}

/// What becomes of a claim: one without a node or with an address that no member can have is
/// rejected; one from before its node left is held back, and so is one that lost a conflict
/// a short time ago, as long as either counts; one of an epoch that is not higher than the
/// known one is ignored; any other is taken. Only a claim that is taken changes the claims,
/// and only its own node's.
pub proof fn fate_of_a_claim(
    m: Map<Seq<char>, ClaimView>,
    c: ClaimView,
    tombs: Map<Seq<char>, MarkView>,
    fights: Map<Seq<char>, MarkView>,
    now: u64,
)
    ensures
        ({
            let (out, m1, f1) = claim_gossip::merged(m, c, tombs, fights, now);
            let k = c.node_id;
            let ok = k.len() > 0 && claim::claim_ok(c.vip);
            let left = tombs.dom().contains(k) && now < tombs[k].expires_at && c.vip_epoch
                <= tombs[k].vip_epoch;
            let beaten = fights.dom().contains(k) && now < fights[k].expires_at && fights[k].vip
                == c.vip && fights[k].vip_epoch == c.vip_epoch;
            let new = !m.dom().contains(k) || m[k].vip_epoch < c.vip_epoch;
            &&& out == if !ok {
                MergeOutcome::Rejected
            } else if left {
                MergeOutcome::BlockedByTombstone
            } else if beaten {
                MergeOutcome::BlockedByFight
            } else if new {
                MergeOutcome::Accepted
            } else {
                MergeOutcome::IgnoredStale
            }
            &&& out is Accepted ==> m1.dom().contains(k) && m1[k] == c
            &&& out !is Accepted ==> m1 == m
            &&& forall|o: Seq<char>|
                o != k ==> (#[trigger] m1.dom().contains(o) <==> m.dom().contains(o)) && m1[o]
                    == m[o]
            &&& out !is BlockedByFight ==> f1 == fights
            &&& out is BlockedByFight && now + 30_000 <= u64::MAX ==> f1[k].expires_at == now
                + 30_000
        }),
{
}

/// Marks are forgotten when their time is over, and no earlier.
pub proof fn marks_last_their_time(m: Map<Seq<char>, MarkView>, now: u64, k: Seq<char>)
    ensures
        ({
            let n = claim_gossip::unexpired(m, now);
            &&& n.dom().contains(k) <==> m.dom().contains(k) && now < m[k].expires_at
            &&& n.dom().contains(k) ==> n[k] == m[k]
            &&& claim_gossip::counts(m, now, k) <==> n.dom().contains(k)
        }),
{
}

/// Telling others of claims goes round: from a place on, the next ones are told, each once,
/// and the first ones after the last. So whoever goes on where it stopped tells of all.
pub proof fn telling_goes_round(v: Seq<ClaimView>, start: int, take: int, j: int)
    requires
        0 <= start < v.len(),
        0 < take <= v.len(),
        0 <= j < v.len(),
    ensures
        ({
            let out = claim_gossip::going_round(v, start, take);
            let ahead = if j >= start {
                j - start
            } else {
                j + v.len() - start
            };
            &&& out.len() == take
            &&& ahead < take ==> out[ahead] == v[j]
            &&& out[0] == v[start]
            &&& take == v.len() ==> out.contains(v[j])
        }),
{
    let n = v.len() as int;
    let out = claim_gossip::going_round(v, start, take);
    let ahead = if j >= start {
        j - start
    } else {
        j + n - start
    };
    assert(start % n == start) by (nonlinear_arith)
        requires
            0 <= start < n,
    ;
    assert((start + ahead) % n == j) by (nonlinear_arith)
        requires
            0 <= j < n,
            start + ahead == j || start + ahead == j + n,
    ;
    if ahead < take {
        assert(out[ahead] == v[j]);
    }
}

/// A member can have any address but those of no host, of groups and of the host itself,
/// and but the first and the last of each 256.
pub proof fn members_can_have(ip: u32)
    ensures
        claim::claimable(ip) <==> ip % 256 != 0 && ip % 256 != 255 && !(0xe000_0000 <= ip
            <= 0xefff_ffff) && !(0x7f00_0000 <= ip <= 0x7fff_ffff),
{
}

/// The addresses of a unit are those with its three first bytes.
pub proof fn units_by_first_bytes(key: Key, ip: u32)
    ensures
        claim::in_unit(key, ip) <==> ip / 256 == key.subnet24.0 * 0x10000 + key.subnet24.1 * 0x100
            + key.subnet24.2,
{
}

/// The host of a unit has the unit's bytes and its own number; numbers that no host has
/// stand for the first.
pub proof fn hosts_of_a_unit(key: Key, host: u8)
    ensures
        ({
            let ip = claim::member_ip(key, host);
            &&& ip / 256 == key.subnet24.0 * 0x10000 + key.subnet24.1 * 0x100 + key.subnet24.2
            &&& 1 <= host <= 254 ==> ip % 256 == host
            &&& host == 0 || host == 255 ==> ip % 256 == 1
        }),
{
}

/// Every key in use is tried: the peer's own, the primary one, and each of the others,
/// unless the peer's own key is the primary one, which is tried alone.
pub proof fn all_keys_are_tried(pool: CryptoPool, source: Endpoint, k: KeyRef)
    requires
        pool.primary == Some(k) || pool.extras@.contains(k) || pool.bound(source) == Some(k),
        !(pool.bound(source) is Some && pool.primary is Some && pool.bound(source)->0.id
            == pool.primary->0.id),
    ensures
        keys::has_id(pool.opening_keys(source), k.id),
{
    let b = pool.bound(source);
    let s = match pool.primary {
        Some(p) => keys::push_unique(keys::listed(b), p),
        None => keys::listed(b),
    };
    if b is Some {
        assert(keys::listed(b)[0].id == b->0.id);
        assert(s[0] == b->0);
    }
    if pool.primary is Some {
        let p = pool.primary->0;
        if !keys::has_id(keys::listed(b), p.id) {
            assert(s[s.len() - 1] == p);
        } else {
            assert(keys::has_id(s, p.id));
        }
    }
    if keys::has_id(s, k.id) {
        extras_keep(s, pool.extras@, pool.extras@.len(), k.id);
    }
    if pool.extras@.contains(k) {
        let i = choose|i: int| 0 <= i < pool.extras@.len() && pool.extras@[i] == k;
        extras_join(s, pool.extras@, pool.extras@.len(), i);
    }
}

proof fn extras_keep(s: Seq<KeyRef>, extras: Seq<KeyRef>, n: nat, id: u64)
    requires
        keys::has_id(s, id),
    ensures
        keys::has_id(keys::with_extras(s, extras, n), id),
    decreases n,
{
    if n > 0 {
        let t = keys::push_unique(s, extras[n - 1]);
        let i = choose|i: int| 0 <= i < s.len() && (#[trigger] s[i]).id == id;
        assert(t[i] == s[i]);
        extras_keep(t, extras, (n - 1) as nat, id);
    }
}

proof fn extras_join(s: Seq<KeyRef>, extras: Seq<KeyRef>, n: nat, i: int)
    requires
        n <= extras.len(),
        0 <= i < n,
    ensures
        keys::has_id(keys::with_extras(s, extras, n), extras[i].id),
    decreases n,
{
    let t = keys::push_unique(s, extras[n - 1]);
    if i == n - 1 {
        if !keys::has_id(s, extras[i].id) {
            assert(t[t.len() - 1] == extras[i]);
        }
        assert(keys::has_id(t, extras[i].id));
        extras_keep(t, extras, (n - 1) as nat, extras[i].id);
    } else {
        extras_join(t, extras, (n - 1) as nat, i);
    }
}

/// Where neither a peer's own key nor a primary one is there, the newest of the others is
/// tried first.
pub proof fn newest_key_first(pool: CryptoPool, source: Endpoint)
    requires
        pool.bound(source) is None,
        pool.primary is None,
        pool.extras@.len() > 0,
    ensures
        pool.opening_keys(source).len() > 0,
        pool.opening_keys(source)[0] == pool.extras@.last(),
{
    let e = pool.extras@;
    let t = keys::push_unique(keys::listed(None), e[e.len() - 1]);
    assert(t.len() == 1 && t[0] == e.last());
    head_stays(t, e, (e.len() - 1) as nat);
}

proof fn head_stays(s: Seq<KeyRef>, extras: Seq<KeyRef>, n: nat)
    requires
        s.len() > 0,
    ensures
        keys::with_extras(s, extras, n).len() > 0,
        keys::with_extras(s, extras, n)[0] == s[0],
    decreases n,
{
    if n > 0 {
        head_stays(keys::push_unique(s, extras[n - 1]), extras, (n - 1) as nat);
    }
}

/// Of the keys besides the primary one the last eight are kept, in their order: what comes
/// in stays, and the oldest go.
pub proof fn newest_keys_are_kept(s: Seq<KeyRef>, k: KeyRef)
    requires
        s.len() <= 8,
    ensures
        ({
            let t = keys::newest(s.push(k));
            &&& t.len() <= 8
            &&& t.last() == k
            &&& s.len() < 8 ==> t == s.push(k)
            &&& s.len() == 8 ==> t == s.subrange(1, 8).push(k)
        }),
{
    if s.len() == 8 {
        assert(keys::newest(s.push(k)) =~= s.subrange(1, 8).push(k));
    }
}

/// The claims of others are told in the order of their nodes' ids, and all that may be told
/// are there.
pub proof fn claims_in_the_order_of_ids(
    v: Seq<ClaimView>,
    m: Map<Seq<char>, ClaimView>,
    own: Seq<char>,
    tombs: Map<Seq<char>, MarkView>,
    now: u64,
    i: int,
    j: int,
    k: Seq<char>,
)
    requires
        claim_gossip::others_in_order(v, m, own, tombs, now),
    ensures
        0 <= i < j < v.len() ==> text::str_before(v[i].node_id, v[j].node_id),
        m.dom().contains(k) && k != own && !(tombs.dom().contains(k) && now < tombs[k].expires_at
            && m[k].vip_epoch <= tombs[k].vip_epoch) ==> exists|x: int|
            0 <= x < v.len() && (#[trigger] v[x]).node_id == k,
{
    if m.dom().contains(k) && k != own && !(tombs.dom().contains(k) && now < tombs[k].expires_at
        && m[k].vip_epoch <= tombs[k].vip_epoch) {
        assert(claim_gossip::passed_on(m, own, tombs, now, k));
    }
}

/// Of the nodes that left, those that count longest are told first, and all that count are
/// there once.
pub proof fn leavers_in_the_order_of_time(
    v: Seq<MarkView>,
    m: Map<Seq<char>, MarkView>,
    now: u64,
    i: int,
    j: int,
    k: Seq<char>,
)
    requires
        claim_gossip::leavers_in_order(v, m, now),
    ensures
        0 <= i < j < v.len() ==> v[i].expires_at >= v[j].expires_at && v[i].node_id != v[j].node_id,
        0 <= i < v.len() ==> v[i].expires_at > now && m.dom().contains(v[i].node_id)
            && m[v[i].node_id] == v[i],
        m.dom().contains(k) && now < m[k].expires_at ==> exists|x: int|
            0 <= x < v.len() && (#[trigger] v[x]).node_id == k,
{
    if 0 <= i < v.len() {
        assert(claim_gossip::counts(m, now, v[i].node_id));
    }
    if m.dom().contains(k) && now < m[k].expires_at {
        assert(claim_gossip::counts(m, now, k));
    }
}

} // verus!
