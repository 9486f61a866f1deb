//! How several servers agree on the public endpoint of this node.

use crate::engine_cmd::PublicEndpoint;
use crate::table;
use crate::table::Table;
use crate::text;
use crate::text::chars_of;
use vstd::prelude::*;
use vstd::string::*;

verus! {

/// How many answers are kept that come before it is known what was asked.
pub const EARLY_MAX: usize = 32;

/// How many equal answers decide.
pub const VOTES_TO_DECIDE: u64 = 2;

/// A query for the public endpoint.
pub struct StunQuery {
    /// How often each answer came.
    pub votes: Table<String, u64>,
    /// It is known what was asked.
    pub asked: bool,
    pub deadline: u64,
    /// Answers that came before it was known what was asked.
    pub early: Vec<Vec<u8>>,
}

/// What became of an answer.
#[derive(Clone, Copy, Debug, PartialEq, Eq, Structural)]
pub enum StunOffer {
    /// Kept for later.
    Kept,
    /// Too many are kept already.
    Overflow,
    /// It does not belong to this query.
    Foreign,
    Counted,
    /// It came often enough.
    Decided,
}

/// How often `k` came.
pub open spec fn count_of(m: Map<Seq<char>, u64>, k: Seq<char>) -> u64 {
    if m.dom().contains(k) {
        m[k]
    } else {
        0
    }
}

impl StunQuery {
    pub open spec fn wf(&self) -> bool {
        self.votes.wf()
    }

    pub fn new(deadline: u64) -> (out: Self)
        ensures
            out.wf(),
            out.votes@ == Map::<Seq<char>, u64>::empty(),
            !out.asked,
            out.deadline == deadline,
            out.early@.len() == 0,
    {
        StunQuery { votes: Table::new(), asked: false, deadline, early: Vec::new() }
    }

    /// Counts an answer; tells whether it decides.
    pub fn vote(&mut self, key: String) -> (decided: bool)
        requires
            old(self).wf(),
            count_of(old(self).votes@, key@) < u64::MAX,
        ensures
            final(self).wf(),
            *final(self) == (StunQuery { votes: final(self).votes, ..*old(self) }),
            final(self).votes@ == old(self).votes@.insert(
                key@,
                (count_of(old(self).votes@, key@) + 1) as u64,
            ),
            decided == (count_of(old(self).votes@, key@) + 1 >= VOTES_TO_DECIDE),
    {
        let n: u64 = match self.votes.get(&key) {
            Some(n) => *n,
            None => 0,
        };
        self.votes.insert(key, n + 1);
        n + 1 >= VOTES_TO_DECIDE
    }

    /// Takes an answer. `parsed` is what it says, where it belongs to this
    /// query.
    pub fn offer(&mut self, buf: &Vec<u8>, parsed: Option<String>) -> (out: StunOffer)
        requires
            old(self).wf(),
            parsed is Some ==> count_of(old(self).votes@, parsed->0@) < u64::MAX,
        ensures
            final(self).wf(),
            out == if !old(self).asked {
                if old(self).early@.len() < EARLY_MAX {
                    StunOffer::Kept
                } else {
                    StunOffer::Overflow
                }
            } else if parsed is None {
                StunOffer::Foreign
            } else if count_of(old(self).votes@, parsed->0@) + 1 >= VOTES_TO_DECIDE {
                StunOffer::Decided
            } else {
                StunOffer::Counted
            },
            final(self).asked == old(self).asked,
            final(self).deadline == old(self).deadline,
            out is Kept ==> final(self).votes == old(self).votes && final(self).early@.len() == old(
                self).early@.len() + 1 && final(self).early@.last()@ == buf@ && final(
                self).early@.drop_last() == old(self).early@,
            !(out is Kept) ==> final(self).early == old(self).early,
            final(self).votes@ == if out is Counted || out is Decided {
                old(self).votes@.insert(
                    parsed->0@,
                    (count_of(old(self).votes@, parsed->0@) + 1) as u64,
                )
            } else {
                old(self).votes@
            },
    {
        if !self.asked {
            if self.early.len() < EARLY_MAX {
                let copy: Vec<u8> = buf.clone();
                let ghost before = self.early@;
                self.early.push(copy);
                proof {
                    assert(copy@ =~= buf@);
                    assert(self.early@.drop_last() =~= before);
                }
                return StunOffer::Kept;
            }
            return StunOffer::Overflow;
        }
        match parsed {
            Some(key) => if self.vote(key) {
                StunOffer::Decided
            } else {
                StunOffer::Counted
            },
            None => StunOffer::Foreign,
        }
    }

    /// An answer that came at least as often as any other.
    pub fn best(&self) -> (out: Option<&String>)
        requires
            self.wf(),
        ensures
            match out {
                Some(k) => self.votes@.dom().contains(k@) && forall|o: Seq<char>| #[trigger]
                    self.votes@.dom().contains(o) ==> self.votes@[o] <= self.votes@[k@],
                None => self.votes@ == Map::<Seq<char>, u64>::empty(),
            },
    {
        let ghost s = self.votes.entries@;
        if self.votes.entries.len() == 0 {
            proof {
                table::map_of_len(s);
                assert(self.votes@ =~= Map::<Seq<char>, u64>::empty());
            }
            return None;
        }
        let mut at: usize = 0;
        let mut i: usize = 1;
        while i < self.votes.entries.len()
            invariant
                s == self.votes.entries@,
                at < i <= s.len(),
                forall|j: int| 0 <= j < i ==> (#[trigger] s[j]).1 <= s[at as int].1,
            decreases s.len() - i,
        {
            if self.votes.entries[i].1 >= self.votes.entries[at].1 {
                at = i;
            }
            i += 1;
        }
        proof {
            table::map_of_at(s, at as int);
            assert forall|o: Seq<char>| #[trigger] self.votes@.dom().contains(o) implies self.votes@[o]
                <= self.votes@[s[at as int].0@] by {
                let j = choose|j: int| table::key_at(s, o, j);
                table::map_of_at(s, j);
            }
        }
        Some(&self.votes.entries[at].0)
    }
}

/// The value of a port number: digits, with or without a leading `+`.
pub open spec fn port_of(s: Seq<char>) -> Option<u16> {
    let d = if s.len() > 1 && s[0] == '+' {
        s.subrange(1, s.len() as int)
    } else {
        s
    };
    if d.len() > 0 && text::all_digits(d) && text::dec_value(d) <= 65535 {
        Some(text::dec_value(d) as u16)
    } else {
        None
    }
}

/// Reads a port number.
pub fn parse_port(s: &Vec<char>) -> (out: Option<u16>)
    ensures
        out == port_of(s@),
{
    let from: usize = if s.len() > 1 && s[0] == '+' {
        1
    } else {
        0
    };
    let ghost d = s@.subrange(from as int, s@.len() as int);
    proof {
        assert(s@.subrange(0, s@.len() as int) =~= s@);
    }
    if from == s.len() {
        return None;
    }
    let mut acc: u32 = 0;
    let mut i: usize = from;
    while i < s.len()
        invariant
            from <= i <= s.len(),
            from < s.len(),
            d == s@.subrange(from as int, s@.len() as int),
            d == if s@.len() > 1 && s@[0] == '+' {
                s@.subrange(1, s@.len() as int)
            } else {
                s@
            },
            text::all_digits(d.take(i - from)),
            acc == text::dec_value(d.take(i - from)),
            acc <= 65535,
        decreases s.len() - i,
    {
        let c: char = s[i];
        proof {
            assert(d[i - from] == c);
            assert(d.take(i - from + 1).drop_last() =~= d.take(i - from));
            assert(d.take(i - from + 1).last() == c);
        }
        if !('0' <= c && c <= '9') {
            return None;
        }
        proof {
            assert forall|j: int| 0 <= j < i - from + 1 implies text::is_digit(
                #[trigger] d.take(i - from + 1)[j],
            ) by {
                if j < i - from {
                    assert(d.take(i - from)[j] == d[j]);
                }
            }
        }
        acc = acc * 10 + (c as u32 - '0' as u32);
        if acc > 65535 {
            proof {
                if text::all_digits(d) {
                    text::dec_value_grows(d, i - from + 1);
                }
            }
            return None;
        }
        i += 1;
    }
    proof {
        assert(d.take(d.len() as int) =~= d);
    }
    Some(acc as u16)
}

/// The first colon of `s`.
pub open spec fn first_colon(s: Seq<char>, i: int) -> bool {
    0 <= i < s.len() && s[i] == ':' && forall|j: int| 0 <= j < i ==> s[j] != ':'
}

/// Reads an answer: what stands before its first colon is the address, and
/// what stands behind it the port.
pub fn endpoint_of_answer(key: &str) -> (out: Option<PublicEndpoint>)
    ensures
        match out {
            Some(e) => exists|i: int| #[trigger]
                first_colon(key@, i) && e.ip@ == key@.subrange(0, i) && port_of(
                    key@.subrange(i + 1, key@.len() as int),
                ) == Some(e.port),
            None => forall|i: int| #[trigger]
                first_colon(key@, i) ==> port_of(key@.subrange(i + 1, key@.len() as int)) is None,
        },
{
    let cs: Vec<char> = chars_of(key);
    let mut i: usize = 0;
    while i < cs.len() && cs[i] != ':'
        invariant
            cs@ == key@,
            i <= cs@.len(),
            forall|j: int| 0 <= j < i ==> cs@[j] != ':',
        decreases cs@.len() - i,
    {
        i += 1;
    }
    if i >= cs.len() {
        return None;
    }
    proof {
        assert(first_colon(key@, i as int));
        assert forall|k: int| first_colon(key@, k) implies k == i by {
            if k < i {
                assert(cs@[k] != ':');
            }
        }
    }
    let mut tail: Vec<char> = Vec::new();
    let mut j: usize = i + 1;
    while j < cs.len()
        invariant
            cs@ == key@,
            i + 1 <= j <= cs@.len(),
            tail@ == cs@.subrange(i + 1, j as int),
        decreases cs@.len() - j,
    {
        tail.push(cs[j]);
        proof {
            assert(cs@.subrange(i + 1, j + 1) =~= cs@.subrange(i + 1, j as int).push(
                cs@[j as int],
            ));
        }
        j += 1;
    }
    match parse_port(&tail) {
        Some(port) => Some(PublicEndpoint { ip: key.substring_char(0, i).to_owned(), port }),
        None => None,
    }
}

} // verus!
