//! What is done with packets that come in, besides routing them.
//!
//! Times are milliseconds.

use crate::addr::Endpoint;
use crate::engine_state;
use crate::engine_state::{since, EngineState};
use crate::engine_ticks;
use crate::engine_ticks::{prune_reliable_seen_cache, ReliableAt, ReliableDedupKey, ReliableId};
use crate::table::Table;
use crate::text::str_eq;
use crate::wire;
use crate::wire::{be_u32_at, ControlTag};
use vstd::prelude::*;

verus! {

/// The length of what a probe and its answer say.
pub const PROBE_HEAD_LEN: usize = 10;

/// What a probe has around its filling: headers of the network and of the packet.
pub const PROBE_OVERHEAD: usize = 44;

/// With what a probe is filled.
pub const PROBE_FILLER: u8 = 0xAB;

/// What is done with a control packet before its body is looked at.
pub enum ParsedPlan {
    Ignore,
    /// A probe is answered with its own head.
    AnswerProbe { head: Vec<u8> },
    /// A probe of ours was answered.
    ProbeAck { size: u16, session: u32, probe: u32 },
    /// A signed packet.
    Signed,
    /// Any other packet.
    Control,
}

/// What is done with a control packet before its body is looked at.
#[verifier::ext_equal]
pub ghost enum ParsedView {
    Ignore,
    AnswerProbe { head: Seq<u8> },
    ProbeAck { size: u16, session: u32, probe: u32 },
    Signed,
    Control,
}

impl View for ParsedPlan {
    type V = ParsedView;

    open spec fn view(&self) -> ParsedView {
        match self {
            ParsedPlan::Ignore => ParsedView::Ignore,
            ParsedPlan::AnswerProbe { head } => ParsedView::AnswerProbe { head: head@ },
            ParsedPlan::ProbeAck { size, session, probe } => ParsedView::ProbeAck {
                size: *size,
                session: *session,
                probe: *probe,
            },
            ParsedPlan::Signed => ParsedView::Signed,
            ParsedPlan::Control => ParsedView::Control,
        }
    }
}

/// Two bytes as a number, the high one first.
pub open spec fn be16(hi: u8, lo: u8) -> u16 {
    (hi as int * 0x100 + lo as int) as u16
}

/// What is done with a control packet.
pub open spec fn parsed(tag: ControlTag, body: Seq<u8>, pinned: bool) -> ParsedView {
    match tag {
        ControlTag::Pmtu => if body.len() < PROBE_HEAD_LEN {
            ParsedView::Ignore
        } else {
            ParsedView::AnswerProbe { head: body.take(PROBE_HEAD_LEN as int) }
        },
        ControlTag::Pmar => if body.len() < PROBE_HEAD_LEN || pinned {
            ParsedView::Ignore
        } else {
            ParsedView::ProbeAck {
                size: be16(body[0], body[1]),
                session: wire::be32(body[2], body[3], body[4], body[5]),
                probe: wire::be32(body[6], body[7], body[8], body[9]),
            }
        },
        ControlTag::Ctsig => ParsedView::Signed,
        _ => ParsedView::Control,
    }
}

fn read16(hi: u8, lo: u8) -> (out: u16)
    ensures
        out == be16(hi, lo),
{
    hi as u16 * 0x100 + lo as u16
}

/// What is done with a control packet. `pinned` tells whether the packet size is
/// fixed, so that answers to probes do not matter.
pub fn plan_parsed(tag: ControlTag, body: &[u8], pinned: bool) -> (plan: ParsedPlan)
    ensures
        plan@ == parsed(tag, body@, pinned),
{
    match tag {
        ControlTag::Pmtu => {
            if body.len() < PROBE_HEAD_LEN {
                return ParsedPlan::Ignore;
            }
            let mut head: Vec<u8> = Vec::new();
            let mut i: usize = 0;
            while i < PROBE_HEAD_LEN
                invariant
                    i <= PROBE_HEAD_LEN <= body@.len(),
                    head@ == body@.take(i as int),
                decreases PROBE_HEAD_LEN - i,
            {
                head.push(body[i]);
                proof {
                    assert(body@.take(i + 1) =~= body@.take(i as int).push(body@[i as int]));
                }
                i += 1;
            }
            ParsedPlan::AnswerProbe { head }
        },
        ControlTag::Pmar => {
            if body.len() < PROBE_HEAD_LEN || pinned {
                return ParsedPlan::Ignore;
            }
            ParsedPlan::ProbeAck {
                size: read16(body[0], body[1]),
                session: be_u32_at(body, 2),
                probe: be_u32_at(body, 6),
            }
        },
        ControlTag::Ctsig => ParsedPlan::Signed,
        _ => ParsedPlan::Control,
    }
}

/// The byte of a number at a place: 0 is the lowest.
pub open spec fn byte_of(n: int, place: int) -> u8 {
    if place == 0 {
        (n % 256) as u8
    } else if place == 1 {
        (n / 0x100 % 256) as u8
    } else if place == 2 {
        (n / 0x10000 % 256) as u8
    } else {
        (n / 0x1000000 % 256) as u8
    }
}

/// What a probe says: its size, the search, and its number.
pub open spec fn probe_head(size: u16, session: u32, probe: u32) -> Seq<u8> {
    seq![
        byte_of(size as int, 1),
        byte_of(size as int, 0),
        byte_of(session as int, 3),
        byte_of(session as int, 2),
        byte_of(session as int, 1),
        byte_of(session as int, 0),
        byte_of(probe as int, 3),
        byte_of(probe as int, 2),
        byte_of(probe as int, 1),
        byte_of(probe as int, 0),
    ]
}

/// How much a probe is filled.
pub open spec fn filling(size: u16) -> int {
    if size < PROBE_OVERHEAD {
        0
    } else {
        size - PROBE_OVERHEAD
    }
}

/// The body of a probe: it makes a packet of the size that is tried.
pub fn probe_body(size: u16, session: u32, probe: u32) -> (out: Vec<u8>)
    ensures
        out@ == probe_head(size, session, probe) + Seq::new(
            filling(size) as nat,
            |i: int| PROBE_FILLER,
        ),
{
    let mut out: Vec<u8> = Vec::new();
    out.push((size / 0x100 % 256) as u8);
    out.push((size % 256) as u8);
    out.push((session / 0x1000000 % 256) as u8);
    out.push((session / 0x10000 % 256) as u8);
    out.push((session / 0x100 % 256) as u8);
    out.push((session % 256) as u8);
    out.push((probe / 0x1000000 % 256) as u8);
    out.push((probe / 0x10000 % 256) as u8);
    out.push((probe / 0x100 % 256) as u8);
    out.push((probe % 256) as u8);
    let ghost head = probe_head(size, session, probe);
    let n: usize = if (size as usize) < PROBE_OVERHEAD {
        0
    } else {
        size as usize - PROBE_OVERHEAD
    };
    let mut i: usize = 0;
    proof {
        assert(out@ =~= head + Seq::new(0, |i: int| PROBE_FILLER));
    }
    while i < n
        invariant
            i <= n,
            out@ == head + Seq::new(i as nat, |i: int| PROBE_FILLER),
        decreases n - i,
    {
        out.push(PROBE_FILLER);
        i += 1;
        proof {
            assert(out@ =~= head + Seq::new(i as nat, |i: int| PROBE_FILLER));
        }
    }
    out
}

/// The answer to a probe tells which probe it was: it reads back the size, the
/// search and the number that the probe was made with.
pub proof fn probe_answer_reads_back(size: u16, session: u32, probe: u32, filler: Seq<u8>)
    ensures
        ({
            let body = probe_head(size, session, probe) + filler;
            &&& parsed(ControlTag::Pmtu, body, false) is AnswerProbe
            &&& parsed(
                ControlTag::Pmar,
                parsed(ControlTag::Pmtu, body, false)->head,
                false,
            ) == (ParsedView::ProbeAck { size, session, probe })
        }),
{
    let head = probe_head(size, session, probe);
    let body = head + filler;
    assert(body.take(PROBE_HEAD_LEN as int) =~= head);
    assert(size as int == (size / 0x100 % 256) * 0x100 + size % 256);
    four_bytes(session);
    four_bytes(probe);
}

proof fn four_bytes(n: u32)
    ensures
        wire::be32(
            byte_of(n as int, 3),
            byte_of(n as int, 2),
            byte_of(n as int, 1),
            byte_of(n as int, 0),
        ) == n,
{
    let a = n as int / 0x1000000;
    let b = n as int / 0x10000;
    let c = n as int / 0x100;
    assert(b / 256 == a);
    assert(c / 256 == b);
}

/// Whether it is time for another warning.
pub open spec fn warns(last: Option<u64>, now: u64, pause: u64) -> bool {
    match last {
        Some(t) => engine_state::elapsed(now, t) >= pause,
        None => true,
    }
}

/// Whether it is time for another warning.
pub fn warning_due(last: Option<u64>, now: u64, pause: u64) -> (b: bool)
    ensures
        b == warns(last, now, pause),
{
    match last {
        Some(t) => since(now, t) >= pause,
        None => true,
    }
}

/// How long there is no second warning that packets for the interface are lost.
pub const INJECT_WARN_PAUSE: u64 = 2_000;

/// How many numbered packets are remembered when a warning is due.
pub const RELIABLE_WARN_LEN: usize = 16_000;

/// How long there is no second warning that many packets are remembered.
pub const RELIABLE_WARN_PAUSE: u64 = 30_000;

/// The numbered packets that came.
pub struct ReliableSeen {
    pub timeline: Vec<ReliableAt>,
    pub seen: Table<ReliableId, ()>,
    pub last_warn: Option<u64>,
}

/// The packet is among those that are remembered.
pub open spec fn remembered(s: Seq<ReliableAt>, id: ReliableId) -> bool {
    exists|i: int| 0 <= i < s.len() && (#[trigger] s[i]).id == id
}

/// No packet is remembered twice.
pub open spec fn each_once(s: Seq<ReliableAt>) -> bool {
    forall|i: int, j: int| 0 <= i < j < s.len() ==> (#[trigger] s[i]).id != (#[trigger] s[j]).id
}

/// The packets that are not forgotten.
pub open spec fn not_forgotten(s: Seq<ReliableAt>, now: u64) -> Seq<ReliableAt> {
    s.skip(engine_ticks::forgotten_count(s, now))
}

/// Whether a packet is new, and those that are remembered then.
pub open spec fn taken_in(s: Seq<ReliableAt>, id: ReliableId, now: u64) -> (bool, Seq<ReliableAt>) {
    let left = not_forgotten(s, now);
    if remembered(left, id) {
        (false, left)
    } else {
        (true, left.push(ReliableAt { at: now, id }))
    }
}

impl ReliableSeen {
    pub open spec fn wf(&self) -> bool {
        &&& self.seen.wf()
        &&& each_once(self.timeline@)
        &&& forall|id: ReliableId| #[trigger]
            self.seen@.dom().contains(id) <==> remembered(self.timeline@, id)
    }

    pub fn new() -> (out: Self)
        ensures
            out.wf(),
            out.timeline@.len() == 0,
            out.last_warn is None,
    {
        ReliableSeen { timeline: Vec::new(), seen: Table::new(), last_warn: None }
    }

    /// Takes in a packet: whether it is new, and whether a warning is due because
    /// many are remembered.
    pub fn take_in(&mut self, key: ReliableDedupKey, seq: u32, now: u64) -> (out: (bool, bool))
        requires
            old(self).wf(),
        ensures
            final(self).wf(),
            (out.0, final(self).timeline@) == taken_in(
                old(self).timeline@,
                (ReliableId { key, seq }),
                now,
            ),
            out.1 == (not_forgotten(old(self).timeline@, now).len() >= RELIABLE_WARN_LEN && warns(
                old(self).last_warn,
                now,
                RELIABLE_WARN_PAUSE,
            )),
            final(self).last_warn == if out.1 {
                Some(now)
            } else {
                old(self).last_warn
            },
    {
        let id = ReliableId { key, seq };
        let ghost t0 = self.timeline@;
        let ghost left = not_forgotten(t0, now);
        prune_reliable_seen_cache(&mut self.timeline, &mut self.seen, now);
        proof {
            engine_ticks::forgotten_bounds(t0, now);
            rest_is_remembered(t0, engine_ticks::forgotten_count(t0, now));
            assert forall|i: int, j: int| 0 <= i < j < left.len() implies (#[trigger] left[i]).id
                != (#[trigger] left[j]).id by {
                let n = engine_ticks::forgotten_count(t0, now);
                assert(t0[i + n].id != t0[j + n].id);
            }
        }
        let warn: bool = self.timeline.len() >= RELIABLE_WARN_LEN && warning_due(
            self.last_warn,
            now,
            RELIABLE_WARN_PAUSE,
        );
        if warn {
            self.last_warn = Some(now);
        }
        if self.seen.contains_key(&id) {
            return (false, warn);
        }
        self.seen.insert(id, ());
        self.timeline.push(ReliableAt { at: now, id });
        proof {
            let t = self.timeline@;
            assert forall|x: ReliableId| #[trigger] self.seen@.dom().contains(x) <==> remembered(
                t,
                x,
            ) by {
                if remembered(left, x) {
                    let i = choose|i: int| 0 <= i < left.len() && (#[trigger] left[i]).id == x;
                    assert(t[i].id == x);
                }
                if x == id {
                    assert(t[left.len() as int].id == x);
                }
                if remembered(t, x) && x != id {
                    let i = choose|i: int| 0 <= i < t.len() && (#[trigger] t[i]).id == x;
                    assert(left[i].id == x);
                }
            }
            assert forall|i: int, j: int| 0 <= i < j < t.len() implies (#[trigger] t[i]).id != (
            #[trigger] t[j]).id by {
                if j == left.len() {
                    assert(left[i].id == t[i].id);
                    assert(remembered(left, left[i].id));
                } else {
                    assert(left[i].id != left[j].id);
                }
            }
        }
        (true, warn)
    }
}

/// Where packets are remembered once each, those at the front can be told from the
/// rest.
proof fn rest_is_remembered(s: Seq<ReliableAt>, n: int)
    requires
        each_once(s),
        0 <= n <= s.len(),
    ensures
        forall|id: ReliableId| #[trigger]
            remembered(s.skip(n), id) <==> remembered(s, id) && !engine_ticks::among_first(
                s,
                n,
                id,
            ),
{
    assert forall|id: ReliableId| #[trigger] remembered(s.skip(n), id) <==> remembered(s, id)
        && !engine_ticks::among_first(s, n, id) by {
        let t = s.skip(n);
        if remembered(t, id) {
            let i = choose|i: int| 0 <= i < t.len() && (#[trigger] t[i]).id == id;
            assert(s[i + n].id == id);
            if engine_ticks::among_first(s, n, id) {
                let j = choose|j: int| 0 <= j < n && (#[trigger] s[j]).id == id;
                assert(s[j].id != s[i + n].id);
            }
        }
        if remembered(s, id) && !engine_ticks::among_first(s, n, id) {
            let i = choose|i: int| 0 <= i < s.len() && (#[trigger] s[i]).id == id;
            if i < n {
                assert(engine_ticks::among_first(s, n, id));
            }
            assert(t[i - n].id == id);
        }
    }
}

/// A numbered packet that comes twice within a minute counts once.
pub proof fn repeated_packet_counts_once(s: Seq<ReliableAt>, id: ReliableId, now: u64, later: u64)
    requires
        engine_state::elapsed(later, now) < engine_ticks::RELIABLE_TTL_MS,
        taken_in(s, id, now).0,
    ensures
        !taken_in(taken_in(s, id, now).1, id, later).0,
{
    let t = taken_in(s, id, now).1;
    let last = t.len() - 1;
    assert(t[last] == (ReliableAt { at: now, id }));
    engine_ticks::forgotten_bounds(t, later);
    engine_ticks::fresh_packet_stays(t, last, later);
    let n = engine_ticks::forgotten_count(t, later);
    assert(t.skip(n)[last - n].id == id);
}

/// What is done with a numbered packet.
#[derive(Clone, Copy, Debug, PartialEq, Eq)]
pub enum ReliablePlan {
    /// It is too short.
    Ignore,
    /// What is in it is not known.
    UnknownInner,
    /// It is acknowledged, and came before.
    Acknowledge { seq: u32, warn: bool },
    /// It is acknowledged, and the rest of it is looked at.
    Deliver { seq: u32, warn: bool },
}

/// What is done with a numbered packet. `join_ack` tells whether its fifth byte
/// says that it has the answer to a join.
pub fn plan_reliable(
    state: &EngineState,
    seen: &mut ReliableSeen,
    body: &[u8],
    join_ack: bool,
    from: Endpoint,
    now: u64,
) -> (plan: ReliablePlan)
    requires
        state.wf(),
        old(seen).wf(),
    ensures
        final(seen).wf(),
        body@.len() < 5 || !join_ack ==> *final(seen) == *old(seen) && plan == if body@.len() < 5 {
            ReliablePlan::Ignore
        } else {
            ReliablePlan::UnknownInner
        },
        body@.len() >= 5 && join_ack ==> ({
            let seq = wire::be32(body@[0], body@[1], body@[2], body@[3]);
            let key = match state.vip_number_at(from) {
                Some(u) => ReliableDedupKey::VipU32(u),
                None => ReliableDedupKey::Addr(from),
            };
            let left = not_forgotten(old(seen).timeline@, now);
            let warn = left.len() >= RELIABLE_WARN_LEN && warns(
                old(seen).last_warn,
                now,
                RELIABLE_WARN_PAUSE,
            );
            let after = taken_in(old(seen).timeline@, (ReliableId { key, seq }), now);
            &&& final(seen).timeline@ == after.1
            &&& final(seen).last_warn == if warn {
                Some(now)
            } else {
                old(seen).last_warn
            }
            &&& plan == if after.0 {
                ReliablePlan::Deliver { seq, warn }
            } else {
                ReliablePlan::Acknowledge { seq, warn }
            }
        }),
{
    if body.len() < 5 {
        return ReliablePlan::Ignore;
    }
    if !join_ack {
        return ReliablePlan::UnknownInner;
    }
    let seq: u32 = be_u32_at(body, 0);
    let key: ReliableDedupKey = state.reliable_key(from);
    let (fresh, warn): (bool, bool) = seen.take_in(key, seq, now);
    if fresh {
        ReliablePlan::Deliver { seq, warn }
    } else {
        ReliablePlan::Acknowledge { seq, warn }
    }
}

/// What a combined packet has: which parts it announces, and which can be read.
#[derive(Clone, Copy, Debug, PartialEq, Eq, Structural)]
pub struct MctlParts {
    pub flag_hb: bool,
    pub flag_hol: bool,
    pub flag_msyn: bool,
    pub signaling_ok: bool,
    pub has_vip: bool,
    pub msyn_ok: bool,
    pub has_msyn: bool,
}

/// Which parts of a combined packet are looked at.
#[derive(Clone, Copy, Debug, PartialEq, Eq, Structural)]
pub struct MctlPlan {
    pub hb: bool,
    pub hol: bool,
    pub msyn: bool,
}

/// Which parts of a combined packet are looked at: none, if it has a membership
/// list and no signature.
pub open spec fn combined(p: MctlParts, authenticated: bool) -> MctlPlan {
    let taken = !(p.flag_msyn && !authenticated);
    MctlPlan {
        hb: taken && p.signaling_ok && p.has_vip && p.flag_hb,
        hol: taken && p.signaling_ok && p.has_vip && p.flag_hol,
        msyn: taken && p.msyn_ok && p.has_msyn,
    }
}

/// Which parts of a combined packet are looked at.
pub fn plan_mctl(p: MctlParts, authenticated: bool) -> (plan: MctlPlan)
    ensures
        plan == combined(p, authenticated),
{
    let taken: bool = !(p.flag_msyn && !authenticated);
    MctlPlan {
        hb: taken && p.signaling_ok && p.has_vip && p.flag_hb,
        hol: taken && p.signaling_ok && p.has_vip && p.flag_hol,
        msyn: taken && p.msyn_ok && p.has_msyn,
    }
}

/// A membership list that is announced is taken only with a signature.
pub proof fn lists_need_signature(p: MctlParts)
    requires
        p.flag_msyn,
    ensures
        combined(p, false) == (MctlPlan { hb: false, hol: false, msyn: false }),
{
}

/// A way to a peer that can be tried.
pub struct IceCandidate {
    pub ip: String,
    pub port: u16,
    pub kind: String,
}

/// Which kinds of ways are tried first: those that servers saw, those that a
/// router opened, and then the peer's own.
pub open spec fn kind_rank(kind: Seq<char>) -> int {
    if kind == "srflx"@ {
        0
    } else if kind == "upnp"@ {
        1
    } else if kind == "host"@ {
        2
    } else {
        3
    }
}

fn rank_of(kind: &String) -> (r: u8)
    ensures
        r == kind_rank(kind@),
{
    if str_eq(kind.as_str(), "srflx") {
        0
    } else if str_eq(kind.as_str(), "upnp") {
        1
    } else if str_eq(kind.as_str(), "host") {
        2
    } else {
        3
    }
}

/// Those of a rank, in their order.
pub open spec fn of_rank(s: Seq<IceCandidate>, rank: int) -> Seq<IceCandidate> {
    s.filter(|c: IceCandidate| kind_rank(c.kind@) == rank)
}

/// The ways by rank; those of the same rank stay in their order.
pub open spec fn by_rank(s: Seq<IceCandidate>) -> Seq<IceCandidate> {
    of_rank(s, 0) + of_rank(s, 1) + of_rank(s, 2) + of_rank(s, 3)
}

/// Puts ways to a peer in the order in which they are tried.
pub fn order_candidates(candidates: Vec<IceCandidate>) -> (out: Vec<IceCandidate>)
    ensures
        out@ == by_rank(candidates@),
{
    let ghost all = candidates@;
    let mut rest: Vec<IceCandidate> = candidates;
    let mut a: Vec<IceCandidate> = Vec::new();
    let mut b: Vec<IceCandidate> = Vec::new();
    let mut c: Vec<IceCandidate> = Vec::new();
    let mut d: Vec<IceCandidate> = Vec::new();
    let ghost mut n: int = 0;
    proof {
        reveal(Seq::filter);
        assert(all.take(0) =~= Seq::<IceCandidate>::empty());
        assert(rest@ =~= all.skip(0));
    }
    while rest.len() > 0
        invariant
            0 <= n <= all.len(),
            rest@ == all.skip(n),
            a@ == of_rank(all.take(n), 0),
            b@ == of_rank(all.take(n), 1),
            c@ == of_rank(all.take(n), 2),
            d@ == of_rank(all.take(n), 3),
        decreases rest@.len(),
    {
        let cand = rest.remove(0);
        proof {
            reveal(Seq::filter);
            assert(cand == all[n]);
            assert(all.take(n + 1).drop_last() =~= all.take(n));
            assert(all.take(n + 1).last() == cand);
            assert(rest@ =~= all.skip(n + 1));
            n = n + 1;
        }
        let rank: u8 = rank_of(&cand.kind);
        if rank == 0 {
            a.push(cand);
        } else if rank == 1 {
            b.push(cand);
        } else if rank == 2 {
            c.push(cand);
        } else {
            d.push(cand);
        }
    }
    proof {
        assert(all.take(n) =~= all);
    }
    a.append(&mut b);
    a.append(&mut c);
    a.append(&mut d);
    a
}

/// How many ways are tried at a time.
pub const ICE_PER_TICK: usize = 8;

/// How long to wait after the step of a check: short at first, then longer, and
/// at last it ends.
pub open spec fn ice_wait(step: int) -> Option<u64> {
    if step < 50 {
        Some(30)
    } else if step < 70 {
        Some(100)
    } else if step < 76 {
        Some(500)
    } else {
        None
    }
}

/// How long to wait after the step of a check, in milliseconds.
pub fn ice_pause(step: usize) -> (out: Option<u64>)
    ensures
        out == ice_wait(step as int),
{
    if step < 50 {
        Some(30)
    } else if step < 70 {
        Some(100)
    } else if step < 76 {
        Some(500)
    } else {
        None
    }
}

/// What is done once a tracker named peers.
#[derive(Clone, Copy, Debug, PartialEq, Eq, Structural)]
pub enum AnnouncePlan {
    /// A join is under way, and nothing new came.
    Nothing,
    /// A join is under way: try the peers.
    Punch,
    /// Try to reach peers that were lost.
    Reconnect,
}

/// Some peer is not known yet.
pub open spec fn some_new(known: Set<Endpoint>, peers: Seq<Endpoint>) -> bool {
    exists|i: int| 0 <= i < peers.len() && !known.contains(#[trigger] peers[i])
}

/// Takes in the peers that a tracker named. While a join is under way they are
/// tried only where one of them is new, or where it is the first answer.
pub fn plan_announce(
    last_peers: &mut Table<Endpoint, ()>,
    join_waiting: bool,
    is_joiner: bool,
    peers: &Vec<Endpoint>,
    first: bool,
) -> (plan: AnnouncePlan)
    requires
        old(last_peers).wf(),
    ensures
        final(last_peers).wf(),
        plan == if !(join_waiting && is_joiner) {
            AnnouncePlan::Reconnect
        } else if first || some_new(old(last_peers)@.dom(), peers@) {
            AnnouncePlan::Punch
        } else {
            AnnouncePlan::Nothing
        },
        !(plan is Punch) ==> *final(last_peers) == *old(last_peers),
        plan is Punch ==> forall|e: Endpoint| #[trigger]
            final(last_peers)@.dom().contains(e) <==> old(last_peers)@.dom().contains(e)
                || peers@.contains(e),
{
    if !(join_waiting && is_joiner) {
        return AnnouncePlan::Reconnect;
    }
    let mut material: bool = first;
    let mut i: usize = 0;
    while i < peers.len()
        invariant
            i <= peers@.len(),
            last_peers.wf(),
            *last_peers == *old(last_peers),
            material == (first || exists|j: int|
                0 <= j < i && !last_peers@.dom().contains(#[trigger] peers@[j])),
        decreases peers@.len() - i,
    {
        if !last_peers.contains_key(&peers[i]) {
            material = true;
        }
        i += 1;
    }
    if !material {
        return AnnouncePlan::Nothing;
    }
    let ghost m0 = last_peers@;
    let mut k: usize = 0;
    while k < peers.len()
        invariant
            k <= peers@.len(),
            last_peers.wf(),
            forall|e: Endpoint| #[trigger]
                last_peers@.dom().contains(e) <==> m0.dom().contains(e) || exists|j: int|
                    0 <= j < k && #[trigger] peers@[j] == e,
        decreases peers@.len() - k,
    {
        let ghost before = last_peers@;
        last_peers.insert(peers[k], ());
        proof {
            assert forall|e: Endpoint| #[trigger] last_peers@.dom().contains(e)
                <==> m0.dom().contains(e) || exists|j: int|
                0 <= j < k + 1 && #[trigger] peers@[j] == e by {
                assert(last_peers@.dom().contains(e) <==> before.dom().contains(e) || e
                    == peers@[k as int]);
            }
        }
        k += 1;
    }
    AnnouncePlan::Punch
}

/// What the sending of repair packets is tuned by.
#[derive(Clone, Copy, Debug, PartialEq, Eq, Structural)]
pub struct FecKnobs {
    pub shard_payload_size: usize,
    pub flush_ms: u64,
    pub flush_aggressive_ms: u64,
    pub frame_scratch_bytes: usize,
}

/// Whether open groups have to be sent because the tuning changed.
pub fn fec_retune_needed(before: FecKnobs, after: FecKnobs) -> (b: bool)
    ensures
        b == (before != after),
{
    before != after
}

} // verus!
