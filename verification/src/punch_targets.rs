//! Which endpoints to send to, so that a packet gets through the address
//! translation before a peer: the ports near the one that is known, and then
//! ports by chance.

use crate::addr;
use crate::addr::{sorted_unique, Endpoint, IpAddr};
use crate::chance::random_between;
use crate::table::Table;
use vstd::prelude::*;

verus! {

pub const MAX_EXPANDED_PUNCH_TARGETS: usize = 512;

pub const JOIN_OVERLAY_NARROW_WIDTH: usize = 64;

pub const JOIN_OVERLAY_WIDE_MIN_WIDTH: usize = 32;

pub const JOIN_OVERLAY_WIDE_MAX_WIDTH: usize = 256;

pub const JOIN_OVERLAY_NARROW_PPS: u32 = 64;

pub const JOIN_OVERLAY_WIDE_PPS: u32 = 128;

pub const JOIN_OVERLAY_RANDOM_PPS: u32 = 64;

pub const JOIN_OVERLAY_RANDOM_MAX_SECS: u64 = 10;

pub const JOIN_OVERLAY_INVITE_PRE_WIDTH: usize = 256;

/// How many ports are tried for a peer.
pub const SYMMETRIC_SCAN_WIDTH: usize = 128;

/// How many ports are tried for the endpoint that is said to be the owner's.
pub const SYMMETRIC_SCAN_WIDTH_OWNER_HINT: usize = 256;

/// How many packets go straight to each endpoint at first.
pub const CANONICAL_STAGE1_PACKETS: usize = 3;

pub const CANONICAL_STAGE1_GAP_MS: u64 = 50;

pub const CANONICAL_STAGE1_OBSERVE_MS: u64 = 500;

pub const CANONICAL_STAGE2_OBSERVE_SECS: u64 = 1;

/// How far the search goes.
#[derive(Clone, Copy, Debug, PartialEq, Eq, Structural)]
pub struct HolePunchTuning {
    pub punch_max_expanded_targets: usize,
    pub punch_wide_min_width: usize,
    pub punch_wide_max_width: usize,
}

impl Default for HolePunchTuning {
    fn default() -> (out: Self)
        ensures
            out.punch_max_expanded_targets == MAX_EXPANDED_PUNCH_TARGETS,
            out.punch_wide_min_width == JOIN_OVERLAY_WIDE_MIN_WIDTH,
            out.punch_wide_max_width == JOIN_OVERLAY_WIDE_MAX_WIDTH,
    {
        HolePunchTuning {
            punch_max_expanded_targets: MAX_EXPANDED_PUNCH_TARGETS,
            punch_wide_min_width: JOIN_OVERLAY_WIDE_MIN_WIDTH,
            punch_wide_max_width: JOIN_OVERLAY_WIDE_MAX_WIDTH,
        }
    }
}

/// At least one.
pub open spec fn one_or_more(n: int) -> int {
    if n < 1 {
        1
    } else {
        n
    }
}

/// The first port that is tried around `port`.
pub open spec fn scan_start(port: u16, width: int) -> int {
    one_or_more(port - one_or_more(width) / 2)
}

/// How many ports are tried around `port`: `width`, or fewer where the ports end.
pub open spec fn scan_len(port: u16, width: int) -> int {
    let room = 0x10000 - scan_start(port, width);
    if one_or_more(width) < room {
        one_or_more(width)
    } else {
        room
    }
}

/// The endpoints that are tried around one: its address, and the ports in
/// ascending order.
pub open spec fn scanned(ep: Endpoint, width: int) -> Seq<Endpoint> {
    Seq::new(
        scan_len(ep.port, width) as nat,
        |i: int| Endpoint { ip: ep.ip, port: (scan_start(ep.port, width) + i) as u16 },
    )
}

/// The endpoints around one. Widths are at most `u32::MAX`.
pub fn build_symmetric_punch_targets(ip: IpAddr, port: u16, width: usize) -> (out: Vec<Endpoint>)
    requires
        width <= u32::MAX,
    ensures
        out@ == scanned((Endpoint { ip, port }), width as int),
{
    let ghost want = scanned((Endpoint { ip, port }), width as int);
    let scan: u64 = if width < 1 {
        1
    } else {
        width as u64
    };
    let half: u64 = scan / 2;
    let start: u64 = if (port as u64) < half + 1 {
        1
    } else {
        port as u64 - half
    };
    let mut out: Vec<Endpoint> = Vec::new();
    let mut offset: u64 = 0;
    while offset < scan && start + offset <= 65535
        invariant
            scan == one_or_more(width as int),
            scan <= u32::MAX,
            start == scan_start(port, width as int),
            1 <= start <= 65535,
            offset <= scan,
            offset <= 65536 - start,
            want == scanned((Endpoint { ip, port }), width as int),
            out@ == want.take(offset as int),
        decreases scan - offset,
    {
        let cand = Endpoint { ip, port: (start + offset) as u16 };
        proof {
            assert(cand == want[offset as int]);
            assert(want.take(offset + 1) =~= want.take(offset as int).push(cand));
        }
        out.push(cand);
        offset += 1;
    }
    proof {
        assert(want.take(want.len() as int) =~= want);
    }
    out
}

/// Each element once, at the place where it comes first.
pub open spec fn firsts(s: Seq<Endpoint>) -> Seq<Endpoint>
    decreases s.len(),
{
    if s.len() == 0 {
        Seq::empty()
    } else {
        let r = firsts(s.drop_last());
        if r.contains(s.last()) {
            r
        } else {
            r.push(s.last())
        }
    }
}

/// At most `n` elements, from the first on.
pub open spec fn at_most(s: Seq<Endpoint>, n: int) -> Seq<Endpoint> {
    if n < s.len() {
        s.take(n)
    } else {
        s
    }
}

/// Of no element there are two.
pub open spec fn no_twice(s: Seq<Endpoint>) -> bool {
    forall|i: int, j: int| 0 <= i < j < s.len() ==> #[trigger] s[i] != #[trigger] s[j]
}

/// What [`firsts`] leaves out and what it keeps.
pub proof fn firsts_keep_all(s: Seq<Endpoint>)
    ensures
        no_twice(firsts(s)),
        forall|e: Endpoint| #[trigger] firsts(s).contains(e) <==> s.contains(e),
    decreases s.len(),
{
    if s.len() > 0 {
        let t = s.drop_last();
        let r = firsts(t);
        firsts_keep_all(t);
        let f = firsts(s);
        assert forall|i: int, j: int| 0 <= i < j < f.len() implies #[trigger] f[i] != #[trigger] f[j] by {
            if j == r.len() {
                assert(r[i] == f[i]);
                assert(r.contains(f[i]));
            } else {
                assert(r[i] != r[j]);
            }
        }
        assert forall|e: Endpoint| #[trigger] f.contains(e) <==> s.contains(e) by {
            if f.contains(e) {
                let i = choose|i: int| 0 <= i < f.len() && f[i] == e;
                if i < r.len() {
                    assert(r[i] == e);
                    assert(firsts(t).contains(e));
                    let j = choose|j: int| 0 <= j < t.len() && t[j] == e;
                    assert(s[j] == e);
                } else {
                    assert(s[s.len() - 1] == e);
                }
            }
            if s.contains(e) {
                let j = choose|j: int| 0 <= j < s.len() && s[j] == e;
                if j < t.len() {
                    assert(t[j] == e);
                    assert(r.contains(e));
                    let i = choose|i: int| 0 <= i < r.len() && r[i] == e;
                    assert(f[i] == e);
                } else if !r.contains(e) {
                    assert(f[r.len() as int] == e);
                }
            }
        }
    }
}

/// What comes first stays first.
pub proof fn firsts_of_start(s: Seq<Endpoint>, n: int)
    requires
        0 <= n <= s.len(),
    ensures
        firsts(s.take(n)).len() <= firsts(s).len(),
        firsts(s).take(firsts(s.take(n)).len() as int) == firsts(s.take(n)),
    decreases s.len() - n,
{
    let a = firsts(s.take(n));
    if n == s.len() {
        assert(s.take(n) =~= s);
        assert(a.take(a.len() as int) =~= a);
    } else {
        firsts_of_start(s, n + 1);
        let b = firsts(s.take(n + 1));
        assert(s.take(n + 1).drop_last() =~= s.take(n));
        assert(b.take(a.len() as int) =~= a);
        assert(firsts(s).take(a.len() as int) =~= b.take(a.len() as int)) by {
            assert(firsts(s).take(b.len() as int) == b);
            assert forall|i: int| 0 <= i < a.len() implies firsts(s).take(a.len() as int)[i]
                == b.take(a.len() as int)[i] by {
                assert(firsts(s).take(b.len() as int)[i] == b[i]);
            }
        }
    }
}

/// How many ports are tried around an endpoint.
pub open spec fn width_for(ep: Endpoint, hint: Option<Endpoint>, hint_width: int, width: int) -> int {
    if hint == Some(ep) {
        hint_width
    } else {
        width
    }
}

/// The endpoints around each of those given.
pub open spec fn all_scanned(
    base: Seq<Endpoint>,
    hint: Option<Endpoint>,
    hint_width: int,
    width: int,
) -> Seq<Endpoint>
    decreases base.len(),
{
    if base.len() == 0 {
        Seq::empty()
    } else {
        all_scanned(base.drop_last(), hint, hint_width, width) + scanned(
            base.last(),
            width_for(base.last(), hint, hint_width, width),
        )
    }
}

/// The endpoints given, then those around them.
pub open spec fn candidates(
    base: Seq<Endpoint>,
    hint: Option<Endpoint>,
    hint_width: int,
    width: int,
) -> Seq<Endpoint> {
    base + all_scanned(base, hint, hint_width, width)
}

/// The endpoints given and those around them, each once; at most `max_total`,
/// but never none where one is given.
pub open spec fn expanded_targets(
    base: Seq<Endpoint>,
    hint: Option<Endpoint>,
    hint_width: int,
    width: int,
    max_total: int,
) -> Seq<Endpoint> {
    at_most(firsts(candidates(base, hint, hint_width, width)), one_or_more(max_total))
}

pub(crate) fn has_endpoint(v: &Vec<Endpoint>, x: Endpoint) -> (b: bool)
    ensures
        b == v@.contains(x),
{
    let mut i: usize = 0;
    while i < v.len()
        invariant
            i <= v@.len(),
            forall|j: int| 0 <= j < i ==> #[trigger] v@[j] != x,
        decreases v@.len() - i,
    {
        if v[i] == x {
            proof {
                assert(v@[i as int] == x);
            }
            return true;
        }
        i += 1;
    }
    false
}

/// Offers the elements of `cands` one after the other; tells whether the limit
/// was reached.
pub(crate) fn offer_all(
    out: &mut Vec<Endpoint>,
    cands: &Vec<Endpoint>,
    max_total: usize,
    Ghost(done): Ghost<Seq<Endpoint>>,
) -> (full: bool)
    requires
        old(out)@ == firsts(done),
        old(out)@.len() < one_or_more(max_total as int),
    ensures
        full ==> final(out)@ == at_most(firsts(done + cands@), one_or_more(max_total as int))
            && final(out)@.len() == one_or_more(max_total as int),
        !full ==> final(out)@ == firsts(done + cands@) && final(out)@.len() < one_or_more(
            max_total as int,
        ),
{
    let ghost all = done + cands@;
    let ghost limit = one_or_more(max_total as int);
    let mut i: usize = 0;
    proof {
        assert(done + cands@.take(0) =~= done);
    }
    while i < cands.len()
        invariant
            i <= cands@.len(),
            all == done + cands@,
            limit == one_or_more(max_total as int),
            out@ == firsts(done + cands@.take(i as int)),
            out@.len() < limit,
        decreases cands@.len() - i,
    {
        let c: Endpoint = cands[i];
        let ghost now = done + cands@.take(i as int);
        let ghost next = done + cands@.take(i + 1);
        proof {
            assert(cands@.take(i + 1) =~= cands@.take(i as int).push(c));
            assert(next.drop_last() =~= now);
            assert(next.last() == c);
        }
        if !has_endpoint(out, c) {
            out.push(c);
            if out.len() >= max_total {
                proof {
                    assert(out@ == firsts(next));
                    assert(out@.len() == limit);
                    assert(all.take(next.len() as int) =~= next);
                    firsts_of_start(all, next.len() as int);
                    assert(at_most(firsts(all), limit) =~= out@);
                }
                return true;
            }
        }
        i += 1;
    }
    proof {
        assert(cands@.take(cands@.len() as int) =~= cands@);
    }
    false
}

/// [`expanded_targets`].
fn expand(
    base_targets: &Vec<Endpoint>,
    hint: Option<Endpoint>,
    hint_width: usize,
    width: usize,
    max_total: usize,
) -> (out: Vec<Endpoint>)
    requires
        width <= u32::MAX,
        hint_width <= u32::MAX,
    ensures
        out@ == expanded_targets(
            base_targets@,
            hint,
            hint_width as int,
            width as int,
            max_total as int,
        ),
{
    let ghost base = base_targets@;
    let ghost all = candidates(base, hint, hint_width as int, width as int);
    let ghost limit = one_or_more(max_total as int);
    let mut out: Vec<Endpoint> = Vec::new();
    let ghost none = Seq::<Endpoint>::empty();
    let full = offer_all(&mut out, base_targets, max_total, Ghost(none));
    proof {
        assert(none + base =~= base);
    }
    if full {
        proof {
            assert(all.take(base.len() as int) =~= base);
            stop_early(all, base, limit);
        }
        return out;
    }
    let mut i: usize = 0;
    proof {
        assert(base + all_scanned(base.take(0), hint, hint_width as int, width as int) =~= base);
    }
    while i < base_targets.len()
        invariant
            i <= base.len(),
            base == base_targets@,
            width <= u32::MAX,
            hint_width <= u32::MAX,
            all == candidates(base, hint, hint_width as int, width as int),
            limit == one_or_more(max_total as int),
            out@ == firsts(
                base + all_scanned(base.take(i as int), hint, hint_width as int, width as int),
            ),
            out@.len() < limit,
        decreases base.len() - i,
    {
        let ep: Endpoint = base_targets[i];
        let at_hint = match hint {
            Some(h) => h == ep,
            None => false,
        };
        let w: usize = if at_hint {
            hint_width
        } else {
            width
        };
        let cands: Vec<Endpoint> = build_symmetric_punch_targets(ep.ip, ep.port, w);
        let ghost done = base + all_scanned(
            base.take(i as int),
            hint,
            hint_width as int,
            width as int,
        );
        let ghost next = base + all_scanned(
            base.take(i + 1),
            hint,
            hint_width as int,
            width as int,
        );
        proof {
            assert(ep == (Endpoint { ip: ep.ip, port: ep.port }));
            assert(base.take(i + 1).drop_last() =~= base.take(i as int));
            assert(base.take(i + 1).last() == ep);
            assert(next =~= done + cands@);
        }
        let full = offer_all(&mut out, &cands, max_total, Ghost(done));
        if full {
            proof {
                scans_start_alike(base, i + 1, hint, hint_width as int, width as int);
                stop_early(all, next, limit);
            }
            return out;
        }
        i += 1;
    }
    proof {
        assert(base.take(base.len() as int) =~= base);
    }
    out
}

/// The scans of the first endpoints are the first scans.
proof fn scans_start_alike(
    base: Seq<Endpoint>,
    n: int,
    hint: Option<Endpoint>,
    hint_width: int,
    width: int,
)
    requires
        0 <= n <= base.len(),
    ensures
        ({
            let part = base + all_scanned(base.take(n), hint, hint_width, width);
            let all = candidates(base, hint, hint_width, width);
            part.len() <= all.len() && all.take(part.len() as int) == part
        }),
    decreases base.len() - n,
{
    let part = base + all_scanned(base.take(n), hint, hint_width, width);
    let all = candidates(base, hint, hint_width, width);
    if n == base.len() {
        assert(base.take(n) =~= base);
        assert(all.take(part.len() as int) =~= part);
    } else {
        scans_start_alike(base, n + 1, hint, hint_width, width);
        let more = base + all_scanned(base.take(n + 1), hint, hint_width, width);
        assert(base.take(n + 1).drop_last() =~= base.take(n));
        assert(more.take(part.len() as int) =~= part);
        assert(all.take(part.len() as int) =~= all.take(more.len() as int).take(part.len() as int));
    }
}

/// Once enough are found the rest does not matter.
proof fn stop_early(all: Seq<Endpoint>, part: Seq<Endpoint>, limit: int)
    requires
        part.len() <= all.len(),
        all.take(part.len() as int) == part,
        0 < limit <= firsts(part).len(),
    ensures
        at_most(firsts(all), limit) == at_most(firsts(part), limit),
{
    firsts_of_start(all, part.len() as int);
    let f = firsts(all);
    let g = firsts(part);
    assert(f.take(g.len() as int) == g);
    assert(at_most(f, limit) =~= at_most(g, limit)) by {
        assert forall|i: int| 0 <= i < limit implies f[i] == g[i] by {
            assert(f.take(g.len() as int)[i] == g[i]);
        }
    }
}

/// The endpoints given and those around them, with a wider search around the
/// endpoint that is said to be the owner's.
pub fn expand_symmetric_targets(
    base_targets: &Vec<Endpoint>,
    owner_hint: Option<Endpoint>,
    max_total: usize,
) -> (out: Vec<Endpoint>)
    ensures
        out@ == expanded_targets(
            base_targets@,
            owner_hint,
            SYMMETRIC_SCAN_WIDTH_OWNER_HINT as int,
            SYMMETRIC_SCAN_WIDTH as int,
            max_total as int,
        ),
{
    expand(
        base_targets,
        owner_hint,
        SYMMETRIC_SCAN_WIDTH_OWNER_HINT,
        SYMMETRIC_SCAN_WIDTH,
        max_total,
    )
}

/// The number nearest to `n` between two bounds; the lower one counts where they
/// cross.
pub open spec fn between(n: int, lo: int, hi: int) -> int {
    if n < lo {
        lo
    } else if n > hi {
        if hi < lo {
            lo
        } else {
            hi
        }
    } else {
        n
    }
}

/// How many ports are tried for each of `peer_count` peers: an equal share of
/// `max_expanded`, within bounds.
pub open spec fn wide_width(
    peer_count: int,
    max_expanded: int,
    min_width: int,
    max_width: int,
) -> int {
    between(
        one_or_more(max_expanded) / one_or_more(peer_count),
        one_or_more(min_width),
        max_width,
    )
}

/// How many ports are tried for each peer.
pub fn join_wide_per_peer_width(
    peer_count: usize,
    max_expanded: usize,
    min_width: usize,
    max_width: usize,
) -> (out: usize)
    ensures
        out == wide_width(
            peer_count as int,
            max_expanded as int,
            min_width as int,
            max_width as int,
        ),
{
    let n: usize = if peer_count < 1 {
        1
    } else {
        peer_count
    };
    let total: usize = if max_expanded < 1 {
        1
    } else {
        max_expanded
    };
    let lo: usize = if min_width < 1 {
        1
    } else {
        min_width
    };
    let hi: usize = if max_width < lo {
        lo
    } else {
        max_width
    };
    let share: usize = total / n;
    if share < lo {
        lo
    } else if share > hi {
        hi
    } else {
        share
    }
}

/// The endpoints given and those around them, with the same width for each.
pub fn expand_intensity_symmetric(
    base_targets: &Vec<Endpoint>,
    per_peer_width: usize,
    max_total: usize,
) -> (out: Vec<Endpoint>)
    requires
        per_peer_width <= u32::MAX,
    ensures
        out@ == expanded_targets(
            base_targets@,
            None,
            per_peer_width as int,
            per_peer_width as int,
            max_total as int,
        ),
{
    expand(base_targets, None, per_peer_width, per_peer_width, max_total)
}

/// The endpoints to try before an invitation is answered.
pub fn invite_pre_punch_targets(hint: Endpoint, max_total: usize) -> (out: Vec<Endpoint>)
    ensures
        out@ == expanded_targets(
            seq![hint],
            None,
            JOIN_OVERLAY_INVITE_PRE_WIDTH as int,
            JOIN_OVERLAY_INVITE_PRE_WIDTH as int,
            max_total as int,
        ),
{
    let mut base: Vec<Endpoint> = Vec::new();
    base.push(hint);
    proof {
        assert(base@ =~= seq![hint]);
    }
    expand_intensity_symmetric(&base, JOIN_OVERLAY_INVITE_PRE_WIDTH, max_total)
}

/// The endpoints of the second stage: one pass over those around the given ones.
pub open spec fn stage2(base: Seq<Endpoint>, punch: HolePunchTuning) -> Seq<Endpoint> {
    let width = wide_width(
        base.len() as int,
        punch.punch_max_expanded_targets as int,
        punch.punch_wide_min_width as int,
        punch.punch_wide_max_width as int,
    );
    if base.len() == 0 {
        Seq::empty()
    } else {
        expanded_targets(base, None, width, width, punch.punch_max_expanded_targets as int)
    }
}

/// The endpoints of the second stage.
pub fn canonical_stage2_targets(base_targets: &Vec<Endpoint>, punch: &HolePunchTuning) -> (out: Vec<
    Endpoint,
>)
    requires
        punch.punch_wide_min_width <= u32::MAX,
        punch.punch_wide_max_width <= u32::MAX,
    ensures
        out@ == stage2(base_targets@, *punch),
{
    if base_targets.len() == 0 {
        return Vec::new();
    }
    let width: usize = join_wide_per_peer_width(
        base_targets.len(),
        punch.punch_max_expanded_targets,
        punch.punch_wide_min_width,
        punch.punch_wide_max_width,
    );
    expand_intensity_symmetric(base_targets, width, punch.punch_max_expanded_targets)
}

/// The endpoints that were tried once the second stage is over.
pub fn canonical_covered_after_stage2(
    base_targets: &Vec<Endpoint>,
    stage2: &Vec<Endpoint>,
) -> (covered: Table<Endpoint, ()>)
    ensures
        covered.wf(),
        forall|e: Endpoint| #[trigger]
            covered@.dom().contains(e) <==> base_targets@.contains(e) || stage2@.contains(e),
{
    let mut covered: Table<Endpoint, ()> = Table::new();
    add_all(&mut covered, base_targets);
    add_all(&mut covered, stage2);
    covered
}

fn add_all(covered: &mut Table<Endpoint, ()>, eps: &Vec<Endpoint>)
    requires
        old(covered).wf(),
    ensures
        final(covered).wf(),
        forall|e: Endpoint| #[trigger]
            final(covered)@.dom().contains(e) <==> old(covered)@.dom().contains(e)
                || eps@.contains(e),
{
    let ghost c0 = covered@;
    let mut i: usize = 0;
    while i < eps.len()
        invariant
            i <= eps@.len(),
            covered.wf(),
            forall|e: Endpoint| #[trigger]
                covered@.dom().contains(e) <==> c0.dom().contains(e) || exists|j: int|
                    0 <= j < i && #[trigger] eps@[j] == e,
        decreases eps@.len() - i,
    {
        let ghost before = covered@;
        covered.insert(eps[i], ());
        proof {
            assert forall|e: Endpoint| #[trigger] covered@.dom().contains(e) <==> c0.dom().contains(
                e,
            ) || exists|j: int| 0 <= j < i + 1 && #[trigger] eps@[j] == e by {
                assert(covered@.dom().contains(e) <==> before.dom().contains(e) || e
                    == eps@[i as int]);
            }
        }
        i += 1;
    }
}

/// The addresses of some endpoints, each once, in ascending order; the port is 0.
pub open spec fn hosts_of(hosts: Seq<Endpoint>, base: Seq<Endpoint>) -> bool {
    &&& addr::ascending(hosts)
    &&& forall|h: Endpoint| #[trigger]
        hosts.contains(h) <==> h.port == 0 && exists|i: int|
            0 <= i < base.len() && (#[trigger] base[i]).ip == h.ip
}

/// The endpoints that come of ports that were drawn: the hosts take turns, and
/// an endpoint that was tried or found before is passed over.
pub open spec fn residual(
    hosts: Seq<Endpoint>,
    covered: Set<Endpoint>,
    max_total: int,
    ports: Seq<u16>,
) -> Seq<Endpoint>
    decreases ports.len(),
{
    if ports.len() == 0 {
        Seq::empty()
    } else {
        let r = residual(hosts, covered, max_total, ports.drop_last());
        let cand = Endpoint {
            ip: hosts[(ports.len() - 1) % hosts.len() as int].ip,
            port: ports.last(),
        };
        if r.len() >= max_total || covered.contains(cand) || r.contains(cand) {
            r
        } else {
            r.push(cand)
        }
    }
}

/// The addresses of some endpoints.
fn hosts(base_targets: &Vec<Endpoint>) -> (out: Vec<Endpoint>)
    ensures
        hosts_of(out@, base_targets@),
{
    let ghost base = base_targets@;
    let mut plain: Vec<Endpoint> = Vec::new();
    let mut i: usize = 0;
    while i < base_targets.len()
        invariant
            i <= base.len(),
            base == base_targets@,
            plain@.len() == i,
            forall|j: int|
                0 <= j < i ==> #[trigger] plain@[j] == (Endpoint { ip: base[j].ip, port: 0 }),
        decreases base.len() - i,
    {
        plain.push(Endpoint { ip: base_targets[i].ip, port: 0 });
        i += 1;
    }
    let out = sorted_unique(&plain);
    proof {
        assert forall|h: Endpoint| #[trigger] out@.contains(h) <==> h.port == 0 && exists|i: int|
            0 <= i < base.len() && (#[trigger] base[i]).ip == h.ip by {
            if out@.contains(h) {
                assert(plain@.contains(h));
                let j = choose|j: int| 0 <= j < plain@.len() && plain@[j] == h;
                assert(base[j].ip == h.ip);
            }
            if h.port == 0 && exists|i: int| 0 <= i < base.len() && (#[trigger] base[i]).ip == h.ip {
                let j = choose|i: int| 0 <= i < base.len() && (#[trigger] base[i]).ip == h.ip;
                assert(plain@[j] == h);
                assert(plain@.contains(h));
            }
        }
    }
    out
}

/// Takes in the next port that was drawn.
fn offer_port(
    out: &mut Vec<Endpoint>,
    hosts: &Vec<Endpoint>,
    covered: &Table<Endpoint, ()>,
    max_total: usize,
    turn: usize,
    port: u16,
    Ghost(ports): Ghost<Seq<u16>>,
)
    requires
        covered.wf(),
        hosts@.len() > 0,
        turn == ports.len() % hosts@.len(),
        old(out)@ == residual(hosts@, covered@.dom(), max_total as int, ports),
    ensures
        final(out)@ == residual(hosts@, covered@.dom(), max_total as int, ports.push(port)),
{
    proof {
        assert(ports.push(port).drop_last() =~= ports);
    }
    let cand = Endpoint { ip: hosts[turn].ip, port };
    if out.len() < max_total && !covered.contains_key(&cand) && !has_endpoint(out, cand) {
        out.push(cand);
    }
}

/// The host whose turn is next.
fn next_turn(turn: usize, n: usize, Ghost(drawn): Ghost<nat>) -> (out: usize)
    requires
        n > 0,
        turn == drawn % (n as nat),
    ensures
        out == (drawn + 1) % (n as nat),
{
    proof {
        vstd::arithmetic::div_mod::lemma_add_mod_noop(drawn as int, 1, n as int);
        if turn + 1 < n {
            vstd::arithmetic::div_mod::lemma_small_mod((turn + 1) as nat, n as nat);
        } else {
            vstd::arithmetic::div_mod::lemma_mod_self_0(n as int);
        }
        if n > 1 {
            vstd::arithmetic::div_mod::lemma_small_mod(1, n as nat);
        }
    }
    if turn + 1 < n {
        turn + 1
    } else {
        0
    }
}

/// The endpoints that come of ports that were drawn.
pub fn residual_from_ports(
    base_targets: &Vec<Endpoint>,
    covered: &Table<Endpoint, ()>,
    max_total: usize,
    ports: &Vec<u16>,
) -> (out: Vec<Endpoint>)
    requires
        covered.wf(),
    ensures
        base_targets@.len() == 0 ==> out@.len() == 0,
        base_targets@.len() > 0 ==> exists|hosts: Seq<Endpoint>| #[trigger]
            hosts_of(hosts, base_targets@) && out@ == residual(
                hosts,
                covered@.dom(),
                max_total as int,
                ports@,
            ),
{
    let hosts: Vec<Endpoint> = hosts(base_targets);
    let mut out: Vec<Endpoint> = Vec::new();
    if base_targets.len() == 0 {
        return out;
    }
    proof {
        some_host(hosts@, base_targets@);
        vstd::arithmetic::div_mod::lemma_small_mod(0, hosts@.len());
    }
    let mut turn: usize = 0;
    let mut i: usize = 0;
    while i < ports.len()
        invariant
            covered.wf(),
            hosts@.len() > 0,
            i <= ports@.len(),
            turn == (i as nat) % hosts@.len(),
            out@ == residual(
                hosts@,
                covered@.dom(),
                max_total as int,
                ports@.take(i as int),
            ),
        decreases ports@.len() - i,
    {
        let ghost so_far = ports@.take(i as int);
        offer_port(&mut out, &hosts, covered, max_total, turn, ports[i], Ghost(so_far));
        proof {
            assert(ports@.take(i + 1) =~= so_far.push(ports@[i as int]));
        }
        turn = next_turn(turn, hosts.len(), Ghost(i as nat));
        i += 1;
    }
    proof {
        assert(ports@.take(ports@.len() as int) =~= ports@);
    }
    out
}

/// Where there are endpoints there is a host.
proof fn some_host(hosts: Seq<Endpoint>, base: Seq<Endpoint>)
    requires
        hosts_of(hosts, base),
        base.len() > 0,
    ensures
        hosts.len() > 0,
{
    let h = Endpoint { ip: base[0].ip, port: 0 };
    assert(hosts.contains(h));
}

/// How often a port is drawn at most.
pub open spec fn draw_limit(max_total: int) -> int {
    let n = if max_total * 32 > usize::MAX {
        usize::MAX as int
    } else {
        max_total * 32
    };
    if n < 64 {
        64
    } else {
        n
    }
}

/// What a search by chance comes to: ports between the bounds were drawn until
/// enough endpoints were found or the limit was reached.
pub open spec fn searched(
    out: Seq<Endpoint>,
    base: Seq<Endpoint>,
    covered: Set<Endpoint>,
    max_total: int,
    lo: u16,
    hi: u16,
) -> bool {
    if base.len() == 0 {
        out.len() == 0
    } else {
        exists|hosts: Seq<Endpoint>, ports: Seq<u16>|
            {
                &&& hosts_of(hosts, base)
                &&& out == #[trigger] residual(hosts, covered, max_total, ports)
                &&& forall|i: int| 0 <= i < ports.len() ==> lo <= #[trigger] ports[i] <= hi
                &&& ports.len() <= draw_limit(max_total)
                &&& out.len() >= max_total || ports.len() == draw_limit(max_total)
            }
    }
}

/// Searches by chance: endpoints with the addresses given and ports between two
/// bounds, that were not tried before.
pub fn build_random_residual_targets(
    base_targets: &Vec<Endpoint>,
    covered: &Table<Endpoint, ()>,
    max_total: usize,
    port_min: u16,
    port_max: u16,
) -> (out: Vec<Endpoint>)
    requires
        covered.wf(),
    ensures
        searched(
            out@,
            base_targets@,
            covered@.dom(),
            max_total as int,
            if port_min <= port_max {
                port_min
            } else {
                port_max
            },
            if port_min <= port_max {
                port_max
            } else {
                port_min
            },
        ),
{
    let hosts: Vec<Endpoint> = hosts(base_targets);
    let mut out: Vec<Endpoint> = Vec::new();
    if base_targets.len() == 0 {
        return out;
    }
    let (lo, hi): (u16, u16) = if port_min <= port_max {
        (port_min, port_max)
    } else {
        (port_max, port_min)
    };
    let wanted: usize = if max_total > usize::MAX / 32 {
        usize::MAX
    } else {
        max_total * 32
    };
    let limit: usize = if wanted < 64 {
        64
    } else {
        wanted
    };
    let ghost mut ports: Seq<u16> = Seq::empty();
    let mut turn: usize = 0;
    let mut attempts: usize = 0;
    proof {
        some_host(hosts@, base_targets@);
        vstd::arithmetic::div_mod::lemma_small_mod(0, hosts@.len());
        assert(limit == draw_limit(max_total as int));
    }
    while out.len() < max_total && attempts < limit
        invariant
            covered.wf(),
            lo <= hi,
            hosts@.len() > 0,
            limit == draw_limit(max_total as int),
            attempts <= limit,
            attempts == ports.len(),
            turn == ports.len() % hosts@.len(),
            forall|i: int| 0 <= i < ports.len() ==> lo <= #[trigger] ports[i] <= hi,
            out@ == residual(hosts@, covered@.dom(), max_total as int, ports),
        decreases limit - attempts,
    {
        let port: u16 = random_between(lo, hi);
        offer_port(&mut out, &hosts, covered, max_total, turn, port, Ghost(ports));
        turn = next_turn(turn, hosts.len(), Ghost(ports.len()));
        attempts += 1;
        proof {
            ports = ports.push(port);
        }
    }
    out
}

/// No search goes over its budget, tries an endpoint twice, or tries one that is
/// neither given nor near one that is given; and what is given is tried first.
pub proof fn searches_stay_in_bounds(
    base: Seq<Endpoint>,
    hint: Option<Endpoint>,
    hint_width: int,
    width: int,
    max_total: int,
)
    ensures
        ({
            let out = expanded_targets(base, hint, hint_width, width, max_total);
            &&& out.len() <= one_or_more(max_total)
            &&& no_twice(out)
            &&& forall|e: Endpoint| #[trigger]
                out.contains(e) ==> base.contains(e) || exists|i: int|
                    0 <= i < base.len() && scanned(
                        #[trigger] base[i],
                        width_for(base[i], hint, hint_width, width),
                    ).contains(e)
            &&& firsts(base).len() <= one_or_more(max_total) ==> forall|i: int|
                0 <= i < firsts(base).len() ==> i < out.len() && #[trigger] out[i] == firsts(
                    base,
                )[i]
        }),
{
    let all = candidates(base, hint, hint_width, width);
    let f = firsts(all);
    let limit = one_or_more(max_total);
    let out = expanded_targets(base, hint, hint_width, width, max_total);
    firsts_keep_all(all);
    assert forall|i: int, j: int| 0 <= i < j < out.len() implies #[trigger] out[i]
        != #[trigger] out[j] by {
        assert(f[i] != f[j]);
    }
    assert forall|e: Endpoint| #[trigger] out.contains(e) implies base.contains(e) || exists|i: int|
        0 <= i < base.len() && scanned(
            #[trigger] base[i],
            width_for(base[i], hint, hint_width, width),
        ).contains(e) by {
        let k = choose|k: int| 0 <= k < out.len() && out[k] == e;
        assert(f[k] == e);
        assert(f.contains(e));
        let j = choose|j: int| 0 <= j < all.len() && all[j] == e;
        if j < base.len() {
            assert(base[j] == e);
        } else {
            scan_has_source(base, hint, hint_width, width, j - base.len());
        }
    }
    assert(all.take(base.len() as int) =~= base);
    firsts_of_start(all, base.len() as int);
    let g = firsts(base);
    if g.len() <= limit {
        assert forall|i: int| 0 <= i < g.len() implies i < out.len() && #[trigger] out[i]
            == g[i] by {
            assert(f.take(g.len() as int)[i] == g[i]);
        }
    }
}

/// Every scanned endpoint is near one that is given.
proof fn scan_has_source(
    base: Seq<Endpoint>,
    hint: Option<Endpoint>,
    hint_width: int,
    width: int,
    k: int,
)
    requires
        0 <= k < all_scanned(base, hint, hint_width, width).len(),
    ensures
        exists|i: int|
            0 <= i < base.len() && scanned(
                #[trigger] base[i],
                width_for(base[i], hint, hint_width, width),
            ).contains(all_scanned(base, hint, hint_width, width)[k]),
    decreases base.len(),
{
    let rest = base.drop_last();
    let head = all_scanned(rest, hint, hint_width, width);
    let tail = scanned(base.last(), width_for(base.last(), hint, hint_width, width));
    let e = all_scanned(base, hint, hint_width, width)[k];
    if k < head.len() {
        scan_has_source(rest, hint, hint_width, width, k);
        let i = choose|i: int|
            0 <= i < rest.len() && scanned(
                #[trigger] rest[i],
                width_for(rest[i], hint, hint_width, width),
            ).contains(head[k]);
        assert(base[i] == rest[i]);
    } else {
        assert(tail[k - head.len()] == e);
        assert(base[base.len() - 1] == base.last());
    }
}

/// A search by chance finds at most as many endpoints as asked for, none twice,
/// and none that was tried before.
pub proof fn chance_finds_only_new(
    hosts: Seq<Endpoint>,
    covered: Set<Endpoint>,
    max_total: int,
    ports: Seq<u16>,
)
    requires
        max_total >= 0,
    ensures
        ({
            let out = residual(hosts, covered, max_total, ports);
            &&& out.len() <= max_total
            &&& no_twice(out)
            &&& forall|i: int| 0 <= i < out.len() ==> !covered.contains(#[trigger] out[i])
        }),
    decreases ports.len(),
{
    if ports.len() > 0 {
        chance_finds_only_new(hosts, covered, max_total, ports.drop_last());
        let r = residual(hosts, covered, max_total, ports.drop_last());
        let out = residual(hosts, covered, max_total, ports);
        assert forall|i: int, j: int| 0 <= i < j < out.len() implies #[trigger] out[i]
            != #[trigger] out[j] by {
            assert(r[i] == out[i]);
            if j < r.len() {
                assert(r[j] == out[j]);
            } else {
                assert(r.contains(r[i]));
            }
        }
    }
}

} // verus!
