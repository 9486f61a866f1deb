//! The queries for the public endpoint of this node: which one an answer counts
//! for, and what comes of them.

use crate::addr::Endpoint;
use crate::engine_cmd::{Engine, PublicEndpoint};
use crate::stun_votes;
use crate::stun_votes::{endpoint_of_answer, StunOffer, StunQuery, EARLY_MAX, VOTES_TO_DECIDE};
use crate::table;
use crate::table::{Key, Table};
use crate::text;
use crate::text::push_digit;
use crate::wire;
use crate::wire::looks_like_stun;
use vstd::prelude::*;
use vstd::string::*;

verus! {

/// The decimal digits of a number.
pub open spec fn number_text(n: int) -> Seq<char>
    decreases n,
{
    if n < 10 {
        seq![text::digit_char(n)]
    } else {
        number_text(n / 10).push(text::digit_char(n % 10))
    }
}

/// How an answer is written: the address, a colon, and the port.
pub open spec fn answer_text(ip: Seq<char>, port: u16) -> Seq<char> {
    ip + seq![':'] + number_text(port as int)
}

/// Appends the decimal digits of a number.
fn push_u16(s: &mut String, n: u16)
    ensures
        final(s)@ == old(s)@ + number_text(n as int),
    decreases n,
{
    let ghost before = s@;
    if n >= 10 {
        push_u16(s, n / 10);
    }
    push_digit(s, (n % 10) as u8);
    proof {
        assert(s@ =~= before + number_text(n as int));
    }
}

fn answer_key(ep: &PublicEndpoint) -> (out: String)
    ensures
        out@ == answer_text(ep.ip@, ep.port),
{
    proof {
        reveal_strlit(":");
        assert(":"@ =~= seq![':']);
    }
    let mut s: String = ep.ip.clone();
    s.append(":");
    push_u16(&mut s, ep.port);
    s
}

/// The digits of a number are digits, and read as the number.
proof fn number_reads_back(n: int)
    requires
        0 <= n,
    ensures
        number_text(n).len() > 0,
        text::all_digits(number_text(n)),
        text::dec_value(number_text(n)) == n,
    decreases n,
{
    let t = number_text(n);
    reveal_with_fuel(text::dec_value, 2);
    if n < 10 {
        assert(t.drop_last() =~= Seq::<char>::empty());
    } else {
        number_reads_back(n / 10);
        assert(t.drop_last() =~= number_text(n / 10));
        assert forall|i: int| 0 <= i < t.len() implies text::is_digit(#[trigger] t[i]) by {
            if i < t.len() - 1 {
                assert(t[i] == number_text(n / 10)[i]);
            }
        }
    }
}

/// An answer whose address has no colon is read as what it was written of.
pub proof fn answer_reads_back(ip: Seq<char>, port: u16)
    requires
        !ip.contains(':'),
    ensures
        stun_votes::first_colon(answer_text(ip, port), ip.len() as int),
        answer_text(ip, port).subrange(0, ip.len() as int) == ip,
        stun_votes::port_of(
            answer_text(ip, port).subrange(ip.len() as int + 1, answer_text(ip, port).len() as int),
        ) == Some(port),
{
    let a = answer_text(ip, port);
    let d = number_text(port as int);
    number_reads_back(port as int);
    assert(a.subrange(0, ip.len() as int) =~= ip);
    assert(a.subrange(ip.len() as int + 1, a.len() as int) =~= d);
    assert forall|j: int| 0 <= j < ip.len() implies a[j] != ':' by {
        assert(ip.contains(ip[j]));
    }
    assert(text::is_digit(d[0]));
}

/// What a query stands for.
pub struct QueryView {
    pub votes: Map<Seq<char>, u64>,
    pub asked: bool,
    pub deadline: u64,
    pub early: Seq<Seq<u8>>,
}

impl View for StunQuery {
    type V = QueryView;

    open spec fn view(&self) -> QueryView {
        QueryView {
            votes: self.votes@,
            asked: self.asked,
            deadline: self.deadline,
            early: Seq::new(self.early@.len(), |i: int| self.early@[i]@),
        }
    }
}

/// The queries that wait for answers, in the order in which they began.
pub struct StunQueries {
    pub pending: Table<u64, StunQuery>,
}

/// What a list of queries stands for.
pub open spec fn queries(s: Seq<(u64, StunQuery)>) -> Seq<(u64, QueryView)> {
    Seq::new(s.len(), |i: int| (s[i].0, s[i].1@))
}

/// No answer came often enough to decide.
pub open spec fn undecided(q: QueryView) -> bool {
    forall|k: Seq<char>| #[trigger]
        q.votes.dom().contains(k) ==> q.votes[k] < VOTES_TO_DECIDE
}

/// The answer counts for the query: it is known what was asked, and the answer is
/// to that.
pub open spec fn counts(q: (u64, QueryView), answers: Map<u64, PublicEndpoint>) -> bool {
    q.1.asked && answers.dom().contains(q.0)
}

/// The first query from `i` on that the answer counts for.
pub open spec fn counting_from(
    s: Seq<(u64, QueryView)>,
    answers: Map<u64, PublicEndpoint>,
    i: int,
) -> int
    decreases s.len() - i,
{
    if i >= s.len() || counts(s[i], answers) {
        i
    } else {
        counting_from(s, answers, i + 1)
    }
}

/// A query that is passed: one of which it is not yet known what was asked keeps
/// the answer, while it has room.
pub open spec fn passed(q: QueryView, buf: Seq<u8>) -> QueryView {
    if !q.asked && q.early.len() < EARLY_MAX {
        QueryView { early: q.early.push(buf), ..q }
    } else {
        q
    }
}

/// A query that counts an answer.
pub open spec fn voted(q: QueryView, key: Seq<char>) -> QueryView {
    QueryView {
        votes: q.votes.insert(key, (stun_votes::count_of(q.votes, key) + 1) as u64),
        ..q
    }
}

/// The answer came often enough.
pub open spec fn decides(q: QueryView, key: Seq<char>) -> bool {
    stun_votes::count_of(q.votes, key) + 1 >= VOTES_TO_DECIDE
}

/// How the answer of `answers` to the query with the number `id` is written.
pub open spec fn key_for(answers: Map<u64, PublicEndpoint>, id: u64) -> Seq<char> {
    answer_text(answers[id].ip@, answers[id].port)
}

/// The queries after an answer, before one that is decided goes.
pub open spec fn told(
    s: Seq<(u64, QueryView)>,
    answers: Map<u64, PublicEndpoint>,
    buf: Seq<u8>,
) -> Seq<(u64, QueryView)> {
    let f = counting_from(s, answers, 0);
    Seq::new(
        s.len(),
        |j: int|
            if j < f {
                (s[j].0, passed(s[j].1, buf))
            } else if j == f {
                (s[j].0, voted(s[j].1, key_for(answers, s[j].0)))
            } else {
                s[j]
            },
    )
}

/// Some query took the answer.
pub open spec fn taken(s: Seq<(u64, QueryView)>, answers: Map<u64, PublicEndpoint>) -> bool {
    let f = counting_from(s, answers, 0);
    f < s.len() || exists|j: int| 0 <= j < s.len() && room_at(#[trigger] s[j])
}

/// The query keeps answers for later, and has room.
pub open spec fn room_at(q: (u64, QueryView)) -> bool {
    !q.1.asked && q.1.early.len() < EARLY_MAX
}

/// The query that the answer decides.
pub open spec fn decided_by(s: Seq<(u64, QueryView)>, answers: Map<u64, PublicEndpoint>) -> Option<
    int,
> {
    let f = counting_from(s, answers, 0);
    if f < s.len() && decides(s[f].1, key_for(answers, s[f].0)) {
        Some(f)
    } else {
        None
    }
}

proof fn counting_bounds(s: Seq<(u64, QueryView)>, answers: Map<u64, PublicEndpoint>, i: int)
    requires
        0 <= i <= s.len(),
    ensures
        i <= counting_from(s, answers, i) <= s.len(),
        counting_from(s, answers, i) < s.len() ==> counts(
            s[counting_from(s, answers, i)],
            answers,
        ),
    decreases s.len() - i,
{
    if i < s.len() && !counts(s[i], answers) {
        counting_bounds(s, answers, i + 1);
    }
}

/// Queries stay undecided, but for the one that the answer decides.
proof fn told_undecided(
    s: Seq<(u64, QueryView)>,
    answers: Map<u64, PublicEndpoint>,
    buf: Seq<u8>,
    j: int,
)
    requires
        0 <= j < s.len(),
        undecided(s[j].1),
        decided_by(s, answers) != Some(j),
    ensures
        undecided(told(s, answers, buf)[j].1),
{
    let f = counting_from(s, answers, 0);
    if j == f {
        let q = s[j].1;
        let key = key_for(answers, s[j].0);
        assert forall|k: Seq<char>| #[trigger] voted(q, key).votes.dom().contains(k) implies voted(
            q,
            key,
        ).votes[k] < VOTES_TO_DECIDE by {
            if k != key {
                assert(q.votes.dom().contains(k));
            }
        }
    }
}

/// Entries with the keys of a table have distinct keys.
proof fn same_keys(s: Seq<(u64, StunQuery)>, t: Seq<(u64, StunQuery)>)
    requires
        table::distinct_keys(s),
        s.len() == t.len(),
        forall|j: int| 0 <= j < s.len() ==> (#[trigger] t[j]).0 == s[j].0,
    ensures
        table::distinct_keys(t),
{
    assert forall|i: int, j: int| 0 <= i < j < t.len() implies (#[trigger] t[i]).0.id() != (
    #[trigger] t[j]).0.id() by {
        assert(s[i].0.id() != s[j].0.id());
    }
}

/// The answer `k` came at least as often as any other.
pub open spec fn leads(votes: Map<Seq<char>, u64>, k: Seq<char>) -> bool {
    votes.dom().contains(k) && forall|o: Seq<char>| #[trigger]
        votes.dom().contains(o) ==> votes[o] <= votes[k]
}

/// The answer `k` is read as `r`.
pub open spec fn reads(k: Seq<char>, r: Option<PublicEndpoint>) -> bool {
    match r {
        Some(e) => exists|i: int| #[trigger]
            stun_votes::first_colon(k, i) && e.ip@ == k.subrange(0, i) && stun_votes::port_of(
                k.subrange(i + 1, k.len() as int),
            ) == Some(e.port),
        None => forall|i: int| #[trigger]
            stun_votes::first_colon(k, i) ==> stun_votes::port_of(
                k.subrange(i + 1, k.len() as int),
            ) is None,
    }
}

/// What comes of a query whose time is up: an answer that came at least as often
/// as any other, if any came.
pub open spec fn verdict(q: QueryView, r: Option<PublicEndpoint>) -> bool {
    ||| q.votes == Map::<Seq<char>, u64>::empty() && r is None
    ||| exists|k: Seq<char>| #[trigger] leads(q.votes, k) && reads(k, r)
}

/// The votes after the answers from the one at `i` on, and the one that decides.
pub open spec fn tally(
    votes: Map<Seq<char>, u64>,
    answers: Seq<Option<PublicEndpoint>>,
    i: int,
) -> (Map<Seq<char>, u64>, Option<int>)
    decreases answers.len() - i,
{
    if i >= answers.len() {
        (votes, None)
    } else {
        match answers[i] {
            None => tally(votes, answers, i + 1),
            Some(e) => {
                let key = answer_text(e.ip@, e.port);
                let n = stun_votes::count_of(votes, key) + 1;
                let v = votes.insert(key, n as u64);
                if n >= VOTES_TO_DECIDE {
                    (v, Some(i))
                } else {
                    tally(v, answers, i + 1)
                }
            },
        }
    }
}

/// Each of the queries `due` has come to its end in `out`, in their order.
pub open spec fn concluded(
    due: Seq<(u64, QueryView)>,
    out: Seq<(u64, Option<PublicEndpoint>)>,
) -> bool {
    &&& out.len() == due.len()
    &&& forall|i: int|
        0 <= i < out.len() ==> (#[trigger] out[i]).0 == due[i].0 && verdict(due[i].1, out[i].1)
}

/// The query still has time.
pub open spec fn in_time(q: (u64, QueryView), now: u64) -> bool {
    q.1.deadline > now
}

impl StunQueries {
    pub open spec fn wf(&self) -> bool {
        &&& self.pending.wf()
        &&& forall|i: int|
            0 <= i < self.pending.entries@.len() ==> (#[trigger] self.pending.entries@[i]).1.wf()
        &&& forall|i: int|
            0 <= i < self@.len() ==> undecided((#[trigger] self@[i]).1)
    }

    pub open spec fn view(&self) -> Seq<(u64, QueryView)> {
        queries(self.pending.entries@)
    }

    pub fn new() -> (out: Self)
        ensures
            out.wf(),
            out@.len() == 0,
    {
        StunQueries { pending: Table::new() }
    }

    /// A query begins.
    pub fn begin(&mut self, id: u64, deadline: u64)
        requires
            old(self).wf(),
            !old(self).pending@.dom().contains(id),
        ensures
            final(self).wf(),
            final(self)@ == old(self)@.push(
                (
                    id,
                    QueryView {
                        votes: Map::empty(),
                        asked: false,
                        deadline,
                        early: Seq::empty(),
                    },
                ),
            ),
    {
        let q: StunQuery = StunQuery::new(deadline);
        let ghost before = self@;
        let ghost new = (id, q@);
        self.pending.insert(id, q);
        proof {
            assert(q@.early =~= Seq::<Seq<u8>>::empty());
            assert(self@ =~= before.push(new));
            assert forall|i: int| 0 <= i < self@.len() implies undecided(
                (#[trigger] self@[i]).1,
            ) by {
                if i < before.len() {
                    assert(self@[i] == before[i]);
                }
            }
        }
    }

    /// Tells the queries of an answer. `answers` is what it says to each query that
    /// it belongs to. It counts for the first query that it belongs to. Tells
    /// whether a query took it, and which one it decided.
    pub fn offer(&mut self, buf: &Vec<u8>, answers: &Table<u64, PublicEndpoint>) -> (out: (
        bool,
        Option<(u64, PublicEndpoint)>,
    ))
        requires
            old(self).wf(),
            answers.wf(),
        ensures
            final(self).wf(),
            out.0 == taken(old(self)@, answers@),
            match decided_by(old(self)@, answers@) {
                Some(f) => {
                    let id = old(self)@[f].0;
                    &&& final(self)@ == told(old(self)@, answers@, buf@).remove(f)
                    &&& out.1 matches Some((i, e)) && i == id && e.ip@ == answers@[id].ip@
                        && e.port == answers@[id].port
                },
                None => final(self)@ == told(old(self)@, answers@, buf@) && out.1 is None,
            },
    {
        let ghost s0 = self.pending.entries@;
        let ghost v0 = self@;
        let ghost f = counting_from(v0, answers@, 0);
        let mut matched: bool = false;
        let mut i: usize = 0;
        let total: usize = self.pending.entries.len();
        while i < total
            invariant
                i <= total,
                total == s0.len(),
                s0 == old(self).pending.entries@,
                v0 == queries(s0),
                old(self).wf(),
                answers.wf(),
                f == counting_from(v0, answers@, 0),
                f == counting_from(v0, answers@, i as int),
                self.pending.entries@.len() == total,
                forall|j: int| 0 <= j < total ==> (#[trigger] self.pending.entries@[j]).1.wf(),
                forall|j: int| 0 <= j < total ==> (#[trigger] self.pending.entries@[j]).0 == s0[j].0,
                forall|j: int| 0 <= j < i ==> !counts(#[trigger] v0[j], answers@),
                forall|j: int|
                    0 <= j < i ==> #[trigger] self@[j] == (v0[j].0, passed(v0[j].1, buf@)),
                forall|j: int| i <= j < total ==> #[trigger] self.pending.entries@[j] == s0[j],
                matched == exists|j: int| 0 <= j < i && room_at(#[trigger] v0[j]),
            decreases total - i,
        {
            let id: u64 = self.pending.entries[i].0;
            let ghost q0 = s0[i as int].1;
            let ghost here = self.pending.entries@;
            let ghost seen = self@;
            proof {
                assert(here[i as int] == s0[i as int]);
                assert(v0[i as int] == (id, q0@));
                assert(undecided(old(self)@[i as int].1));
            }
            let parsed: Option<String> = match answers.get(&id) {
                Some(e) => Some(answer_key(e)),
                None => None,
            };
            let ghost key = key_for(answers@, id);
            let offered: StunOffer = self.pending.entries[i].1.offer(buf, parsed);
            proof {
                let q1 = self.pending.entries@[i as int].1;
                assert forall|j: int| 0 <= j < total && j != i implies #[trigger] self@[j]
                    == seen[j] && self.pending.entries@[j] == here[j] by {
                    assert(self.pending.entries@[j] == here[j]);
                }
                if offered is Kept {
                    assert(q1@.early =~= q0@.early.push(buf@));
                    assert(q1@ == passed(q0@, buf@));
                    assert(room_at(v0[i as int]));
                } else {
                    assert(q1@.early =~= q0@.early);
                    if offered is Overflow || offered is Foreign {
                        assert(q1@ == passed(q0@, buf@));
                    } else {
                        assert(q1@ == voted(q0@, key));
                        assert(counts(v0[i as int], answers@));
                        assert(f == i);
                    }
                }
            }
            match offered {
                StunOffer::Kept => {
                    matched = true;
                },
                StunOffer::Overflow | StunOffer::Foreign => {},
                StunOffer::Counted => {
                    proof {
                        assert(self@ =~= told(v0, answers@, buf@));
                        same_keys(s0, self.pending.entries@);
                        assert forall|j: int| 0 <= j < self@.len() implies undecided(
                            (#[trigger] self@[j]).1,
                        ) by {
                            assert(undecided(old(self)@[j].1));
                            told_undecided(v0, answers@, buf@, j);
                        }
                    }
                    return (true, None);
                },
                StunOffer::Decided => {
                    proof {
                        assert(self@ =~= told(v0, answers@, buf@));
                        same_keys(s0, self.pending.entries@);
                        table::map_of_remove(self.pending.entries@, i as int);
                    }
                    let _ = self.pending.entries.remove(i);
                    proof {
                        assert(self@ =~= told(v0, answers@, buf@).remove(f));
                        assert forall|j: int| 0 <= j < self@.len() implies undecided(
                            (#[trigger] self@[j]).1,
                        ) by {
                            let x = if j < f {
                                j
                            } else {
                                j + 1
                            };
                            assert(undecided(old(self)@[x].1));
                            told_undecided(v0, answers@, buf@, x);
                        }
                    }
                    let ep: Option<(u64, PublicEndpoint)> = match answers.get(&id) {
                        Some(e) => Some(
                            (id, PublicEndpoint { ip: e.ip.clone(), port: e.port }),
                        ),
                        None => None,
                    };
                    return (true, ep);
                },
            }
            i += 1;
        }
        proof {
            assert(self@ =~= told(v0, answers@, buf@));
            same_keys(s0, self.pending.entries@);
            assert forall|j: int| 0 <= j < self@.len() implies undecided(
                (#[trigger] self@[j]).1,
            ) by {
                assert(undecided(old(self)@[j].1));
                told_undecided(v0, answers@, buf@, j);
            }
        }
        (matched, None)
    }

    /// Forgets a query.
    fn drop_query(&mut self, id: u64)
        requires
            old(self).wf(),
        ensures
            final(self).wf(),
            final(self).pending@ == old(self).pending@.remove(id),
    {
        let ghost v0 = self@;
        match self.pending.find(&id) {
            Some(i) => {
                proof {
                    table::map_of_remove(self.pending.entries@, i as int);
                }
                let _ = self.pending.entries.remove(i);
                proof {
                    assert(self@ =~= v0.remove(i as int));
                    assert forall|j: int| 0 <= j < self@.len() implies undecided(
                        (#[trigger] self@[j]).1,
                    ) by {
                        let x = if j < i {
                            j
                        } else {
                            j + 1
                        };
                        assert(undecided(v0[x].1));
                    }
                }
            },
            None => {
                proof {
                    assert(self.pending@.remove(id) =~= self.pending@);
                }
            },
        }
    }

    /// Ends the queries whose time is up.
    pub fn take_due(&mut self, now: u64) -> (out: Vec<(u64, Option<PublicEndpoint>)>)
        requires
            old(self).wf(),
        ensures
            final(self).wf(),
            final(self)@ == old(self)@.filter(|q: (u64, QueryView)| in_time(q, now)),
            concluded(old(self)@.filter(|q: (u64, QueryView)| !in_time(q, now)), out@),
    {
        let ghost s0 = self.pending.entries@;
        let ghost v0 = self@;
        let ghost live = |q: (u64, QueryView)| in_time(q, now);
        let ghost due = |q: (u64, QueryView)| !in_time(q, now);
        let ghost mut n: int = 0;
        let mut out: Vec<(u64, Option<PublicEndpoint>)> = Vec::new();
        let mut i: usize = 0;
        proof {
            reveal(Seq::filter);
            assert(v0.take(0) =~= Seq::<(u64, QueryView)>::empty());
            assert(self@.skip(0) =~= v0.skip(0));
            assert(self@.take(0) =~= v0.take(0).filter(live));
        }
        while i < self.pending.entries.len()
            invariant
                self.wf(),
                s0 == old(self).pending.entries@,
                v0 == queries(s0),
                live == |q: (u64, QueryView)| in_time(q, now),
                due == |q: (u64, QueryView)| !in_time(q, now),
                0 <= n <= v0.len(),
                i <= self.pending.entries@.len(),
                self@.take(i as int) == v0.take(n).filter(live),
                self@.skip(i as int) == v0.skip(n),
                concluded(v0.take(n).filter(due), out@),
            decreases self.pending.entries@.len() - i,
        {
            let ghost w = self@;
            let ghost q = v0[n];
            proof {
                reveal(Seq::filter);
                assert(w.skip(i as int).len() == v0.skip(n).len());
                assert(w.skip(i as int)[0] == v0.skip(n)[0]);
                assert(w[i as int] == q);
                assert(v0.take(n + 1).drop_last() =~= v0.take(n));
                assert(v0.take(n + 1).last() == q);
                assert(v0.take(n + 1).filter(live) == if live(q) {
                    v0.take(n).filter(live).push(q)
                } else {
                    v0.take(n).filter(live)
                });
                assert(v0.take(n + 1).filter(due) == if due(q) {
                    v0.take(n).filter(due).push(q)
                } else {
                    v0.take(n).filter(due)
                });
                assert(v0.skip(n + 1) =~= v0.skip(n).skip(1));
            }
            if self.pending.entries[i].1.deadline > now {
                i += 1;
                proof {
                    assert(self@.take(i as int) =~= w.take(i - 1).push(q));
                    assert(self@.skip(i as int) =~= w.skip(i - 1).skip(1));
                }
            } else {
                let found: Option<PublicEndpoint> = match self.pending.entries[i].1.best() {
                    Some(k) => {
                        let r = endpoint_of_answer(k.as_str());
                        proof {
                            assert(leads(self.pending.entries@[i as int].1@.votes, k@));
                            assert(reads(k@, r));
                        }
                        r
                    },
                    None => None,
                };
                let id: u64 = self.pending.entries[i].0;
                proof {
                    let e = self.pending.entries@[i as int].1;
                    assert(verdict(e@, found));
                    table::map_of_remove(self.pending.entries@, i as int);
                }
                let ghost here = self.pending.entries@;
                let _ = self.pending.entries.remove(i);
                let ghost o = out@;
                out.push((id, found));
                proof {
                    assert(self@ =~= w.remove(i as int));
                    assert(self@.take(i as int) =~= w.take(i as int));
                    assert(self@.skip(i as int) =~= w.skip(i as int).skip(1));
                    assert forall|j: int| 0 <= j < self@.len() implies undecided(
                        (#[trigger] self@[j]).1,
                    ) by {
                        let x = if j < i {
                            j
                        } else {
                            j + 1
                        };
                        assert(self@[j] == w[x]);
                        assert(undecided(w[x].1));
                    }
                    assert(concluded(v0.take(n + 1).filter(due), out@));
                }
            }
            proof {
                n = n + 1;
            }
        }
        proof {
            assert(v0.skip(n).len() == 0);
            assert(v0.take(n) =~= v0);
            assert(self@.take(i as int) =~= self@);
        }
        out
    }

    /// It is known now what the query asked. The answers that it kept are counted:
    /// `early` is what they say, where they are to what was asked. Returns what
    /// was decided; nothing where there is no such query.
    pub fn asked(&mut self, id: u64, deadline: u64, early: &Vec<Option<PublicEndpoint>>) -> (out:
        Option<Option<PublicEndpoint>>)
        requires
            old(self).wf(),
        ensures
            final(self).wf(),
            match out {
                None => !old(self).pending@.dom().contains(id) && *final(self) == *old(self),
                Some(found) => old(self).pending@.dom().contains(id) && exists|p: int|
                    {
                        &&& 0 <= p < old(self)@.len()
                        &&& (#[trigger] old(self)@[p]).0 == id
                        &&& asked_at(old(self)@, p, deadline, early@, final(self)@, found)
                    },
            },
    {
        let at: usize = match self.pending.find(&id) {
            Some(i) => i,
            None => {
                return None;
            },
        };
        let ghost v0 = self@;
        let ghost s0 = self.pending.entries@;
        let ghost q0 = v0[at as int].1;
        proof {
            assert(undecided(v0[at as int].1));
            assert(s0[at as int].1.wf());
        }
        self.pending.entries[at].1.asked = true;
        self.pending.entries[at].1.deadline = deadline;
        self.pending.entries[at].1.early = Vec::new();
        let mut i: usize = 0;
        while i < early.len()
            invariant
                i <= early@.len(),
                at < self.pending.entries@.len(),
                old(self).wf(),
                old(self).pending@.dom().contains(id),
                v0 == old(self)@,
                s0 == old(self).pending.entries@,
                q0 == v0[at as int].1,
                v0[at as int].0 == id,
                self.pending.entries@.len() == s0.len(),
                forall|j: int|
                    0 <= j < s0.len() && j != at ==> #[trigger] self.pending.entries@[j] == s0[j],
                self.pending.entries@[at as int].0 == id,
                ({
                    let q = self.pending.entries@[at as int].1;
                    &&& q.wf()
                    &&& q.asked
                    &&& q.deadline == deadline
                    &&& q.early@.len() == 0
                    &&& undecided(q@)
                    &&& tally(q.votes@, early@, i as int) == tally(q0.votes, early@, 0)
                }),
            decreases early@.len() - i,
        {
            if let Some(e) = &early[i] {
                let key: String = answer_key(e);
                let ghost q = self.pending.entries@[at as int].1;
                let ghost k = key@;
                proof {
                    assert(q@.votes == q.votes@);
                }
                let decided: bool = self.pending.entries[at].1.vote(key);
                proof {
                    let q1 = self.pending.entries@[at as int].1;
                    if !decided {
                        assert forall|x: Seq<char>| #[trigger] q1@.votes.dom().contains(
                            x,
                        ) implies q1@.votes[x] < VOTES_TO_DECIDE by {
                            if x != k {
                                assert(q@.votes.dom().contains(x));
                            }
                        }
                    }
                }
                if decided {
                    let found = PublicEndpoint { ip: e.ip.clone(), port: e.port };
                    proof {
                        same_keys(s0, self.pending.entries@);
                        table::map_of_remove(self.pending.entries@, at as int);
                    }
                    let _ = self.pending.entries.remove(at);
                    proof {
                        assert(self@ =~= v0.remove(at as int));
                        assert forall|j: int| 0 <= j < self@.len() implies undecided(
                            (#[trigger] self@[j]).1,
                        ) by {
                            let x = if j < at {
                                j
                            } else {
                                j + 1
                            };
                            assert(undecided(v0[x].1));
                        }
                        assert(asked_at(v0, at as int, deadline, early@, self@, Some(found)));
                    }
                    return Some(Some(found));
                }
            }
            i += 1;
        }
        proof {
            let q = self.pending.entries@[at as int].1;
            same_keys(s0, self.pending.entries@);
            assert(q@.early =~= Seq::<Seq<u8>>::empty());
            let q1 = QueryView {
                votes: tally(q0.votes, early@, 0).0,
                asked: true,
                deadline,
                early: Seq::empty(),
            };
            assert(q@ == q1);
            assert(self@ =~= v0.update(at as int, (id, q1)));
            assert forall|j: int| 0 <= j < self@.len() implies undecided(
                (#[trigger] self@[j]).1,
            ) by {
                if j != at {
                    assert(undecided(v0[j].1));
                }
            }
            assert(asked_at(v0, at as int, deadline, early@, self@, None));
        }
        Some(None)
    }
}

/// The query at `p` was told what it asked, and counted what it kept.
pub open spec fn asked_at(
    s: Seq<(u64, QueryView)>,
    p: int,
    deadline: u64,
    early: Seq<Option<PublicEndpoint>>,
    after: Seq<(u64, QueryView)>,
    found: Option<PublicEndpoint>,
) -> bool {
    let (votes, hit) = tally(s[p].1.votes, early, 0);
    match hit {
        Some(i) => {
            &&& after == s.remove(p)
            &&& found matches Some(e) && early[i] matches Some(x) && e.ip@ == x.ip@ && e.port
                == x.port
        },
        None => {
            &&& found is None
            &&& after == s.update(
                p,
                (s[p].0, QueryView { votes, asked: true, deadline, early: Seq::empty() }),
            )
        },
    }
}

/// The last endpoint that was found.
pub open spec fn last_found(out: Seq<(u64, Option<PublicEndpoint>)>) -> Option<PublicEndpoint>
    decreases out.len(),
{
    if out.len() == 0 {
        None
    } else if out.last().1 is Some {
        out.last().1
    } else {
        last_found(out.drop_last())
    }
}

/// The public endpoint that is kept is `e`, and was found at `now`.
pub open spec fn kept_as(
    kept: Option<(u64, PublicEndpoint)>,
    e: PublicEndpoint,
    now: u64,
) -> bool {
    kept matches Some((at, k)) && at == now && k.ip@ == e.ip@ && k.port == e.port
}

/// No query of `out` runs any more.
pub open spec fn without_ids(
    m: Map<u64, ()>,
    out: Seq<(u64, Option<PublicEndpoint>)>,
) -> Map<u64, ()>
    decreases out.len(),
{
    if out.len() == 0 {
        m
    } else {
        without_ids(m, out.drop_last()).remove(out.last().0)
    }
}

/// What came of looking up whom a query asks.
pub enum StunResolved {
    /// The query does not run any more.
    Ignored,
    /// Nobody could be asked; the query ends without an answer.
    Failed,
    /// Nobody waits for the query any more.
    Dropped,
    /// The query waits for answers.
    Waiting,
    /// Answers that came before were enough.
    Found(PublicEndpoint),
}

fn copy_of(e: &PublicEndpoint) -> (out: PublicEndpoint)
    ensures
        out.ip@ == e.ip@,
        out.port == e.port,
{
    PublicEndpoint { ip: e.ip.clone(), port: e.port }
}

impl Engine {
    /// A datagram came in that may be an answer to a query. `answers` is what it
    /// says to each query that it belongs to. Tells whether a query took it, and
    /// which query it ended with what.
    pub fn handle_stun_datagram(
        &mut self,
        q: &mut StunQueries,
        buf: &Vec<u8>,
        answers: &Table<u64, PublicEndpoint>,
        now: u64,
    ) -> (out: (bool, Option<(u64, PublicEndpoint)>))
        requires
            old(self).wf(),
            old(q).wf(),
            answers.wf(),
        ensures
            final(self).wf(),
            final(q).wf(),
            *final(self) == (Engine {
                stun_queries: final(self).stun_queries,
                public_ep: final(self).public_ep,
                ..*old(self)
            }),
            !wire::stun_like(buf@) ==> !out.0 && out.1 is None && *final(q) == *old(q)
                && *final(self) == *old(self),
            wire::stun_like(buf@) ==> {
                &&& out.0 == taken(old(q)@, answers@)
                &&& match decided_by(old(q)@, answers@) {
                    Some(f) => {
                        let id = old(q)@[f].0;
                        &&& final(q)@ == told(old(q)@, answers@, buf@).remove(f)
                        &&& out.1 matches Some((i, e)) && i == id && e.ip@ == answers@[id].ip@
                            && e.port == answers@[id].port
                        &&& final(self).stun_queries@ == old(self).stun_queries@.remove(id)
                        &&& kept_as(final(self).public_ep, answers@[id], now)
                    },
                    None => {
                        &&& final(q)@ == told(old(q)@, answers@, buf@)
                        &&& out.1 is None
                        &&& *final(self) == *old(self)
                    },
                }
            },
    {
        if !looks_like_stun(buf.as_slice()) {
            return (false, None);
        }
        let (matched, done) = q.offer(buf, answers);
        if let Some((id, e)) = &done {
            let _ = self.stun_queries.remove(id);
            self.public_ep = Some((now, copy_of(e)));
        }
        (matched, done)
    }

    /// Ends the queries whose time is up. Returns what came of each.
    pub fn poll_stun_query(&mut self, q: &mut StunQueries, now: u64) -> (out: Vec<
        (u64, Option<PublicEndpoint>),
    >)
        requires
            old(self).wf(),
            old(q).wf(),
        ensures
            final(self).wf(),
            final(q).wf(),
            final(q)@ == old(q)@.filter(|x: (u64, QueryView)| in_time(x, now)),
            concluded(old(q)@.filter(|x: (u64, QueryView)| !in_time(x, now)), out@),
            *final(self) == (Engine {
                stun_queries: final(self).stun_queries,
                public_ep: final(self).public_ep,
                ..*old(self)
            }),
            final(self).stun_queries@ == without_ids(old(self).stun_queries@, out@),
            match last_found(out@) {
                Some(e) => kept_as(final(self).public_ep, e, now),
                None => final(self).public_ep == old(self).public_ep,
            },
    {
        let out: Vec<(u64, Option<PublicEndpoint>)> = q.take_due(now);
        let mut i: usize = 0;
        proof {
            assert(out@.take(0) =~= Seq::<(u64, Option<PublicEndpoint>)>::empty());
        }
        while i < out.len()
            invariant
                i <= out@.len(),
                self.wf(),
                *self == (Engine {
                    stun_queries: self.stun_queries,
                    public_ep: self.public_ep,
                    ..*old(self)
                }),
                self.stun_queries@ == without_ids(old(self).stun_queries@, out@.take(i as int)),
                match last_found(out@.take(i as int)) {
                    Some(e) => kept_as(self.public_ep, e, now),
                    None => self.public_ep == old(self).public_ep,
                },
            decreases out@.len() - i,
        {
            proof {
                assert(out@.take(i + 1).drop_last() =~= out@.take(i as int));
                assert(out@.take(i + 1).last() == out@[i as int]);
            }
            let _ = self.stun_queries.remove(&out[i].0);
            if let Some(e) = &out[i].1 {
                self.public_ep = Some((now, copy_of(e)));
            }
            i += 1;
        }
        proof {
            assert(out@.take(out@.len() as int) =~= out@);
        }
        out
    }

    /// It was looked up whom a query asks. `sent` tells that somebody is asked,
    /// `chosen` is the first server, which is kept in touch with from now on, and
    /// `early` is what the answers say that the query has kept.
    pub fn handle_stun_resolve_result(
        &mut self,
        q: &mut StunQueries,
        id: u64,
        sent: bool,
        chosen: Option<Endpoint>,
        deadline: u64,
        early: &Vec<Option<PublicEndpoint>>,
        now: u64,
    ) -> (out: StunResolved)
        requires
            old(self).wf(),
            old(q).wf(),
        ensures
            final(self).wf(),
            final(q).wf(),
            *final(self) == (Engine {
                stun_queries: final(self).stun_queries,
                public_ep: final(self).public_ep,
                stun_keepalive_addr: final(self).stun_keepalive_addr,
                ..*old(self)
            }),
            final(self).stun_keepalive_addr == if !old(self).stun_queries@.dom().contains(id) {
                old(self).stun_keepalive_addr
            } else if sent {
                chosen
            } else {
                None
            },
            ({
                let runs = old(self).stun_queries@.dom().contains(id);
                let waits = old(q).pending@.dom().contains(id);
                &&& out is Ignored == !runs
                &&& out is Failed == (runs && !sent)
                &&& out is Dropped == (runs && sent && !waits)
                &&& out is Ignored ==> *final(self) == *old(self) && *final(q) == *old(q)
                &&& out is Failed || out is Dropped ==> final(self).stun_queries@ == old(
                    self).stun_queries@.remove(id) && final(self).public_ep == old(
                    self).public_ep
                &&& out is Failed ==> final(q).pending@ == old(q).pending@.remove(id)
                &&& out is Dropped ==> *final(q) == *old(q)
                &&& out is Waiting || out is Found ==> exists|p: int|
                    {
                        &&& 0 <= p < old(q)@.len()
                        &&& (#[trigger] old(q)@[p]).0 == id
                        &&& asked_at(
                            old(q)@,
                            p,
                            deadline,
                            early@,
                            final(q)@,
                            match out {
                                StunResolved::Found(e) => Some(e),
                                _ => None,
                            },
                        )
                    }
                &&& out is Waiting ==> *final(self) == (Engine {
                    stun_keepalive_addr: chosen,
                    ..*old(self)
                })
                &&& out matches StunResolved::Found(e) ==> kept_as(final(self).public_ep, e, now)
                    && final(self).stun_queries@ == old(self).stun_queries@.remove(id)
            }),
    {
        if !self.stun_queries.contains_key(&id) {
            return StunResolved::Ignored;
        }
        if !sent {
            self.stun_keepalive_addr = None;
            let _ = self.stun_queries.remove(&id);
            q.drop_query(id);
            return StunResolved::Failed;
        }
        self.stun_keepalive_addr = chosen;
        match q.asked(id, deadline, early) {
            None => {
                let _ = self.stun_queries.remove(&id);
                StunResolved::Dropped
            },
            Some(None) => StunResolved::Waiting,
            Some(Some(e)) => {
                let _ = self.stun_queries.remove(&id);
                self.public_ep = Some((now, copy_of(&e)));
                StunResolved::Found(e)
            },
        }
    }
}

} // verus!
