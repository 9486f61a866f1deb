//! Addresses of peers on the underlay network.

use vstd::prelude::*;

verus! {

/// An IP address: a version 4 address as one number, or the high and the low
/// half of a version 6 address.
#[derive(Clone, Copy, Debug, PartialEq, Eq, Hash, Structural)]
pub enum IpAddr {
    V4(u32),
    V6(u64, u64),
}

/// Where datagrams of a peer come from and go to.
#[derive(Clone, Copy, Debug, PartialEq, Eq, Hash, Structural)]
pub struct Endpoint {
    pub ip: IpAddr,
    pub port: u16,
}

impl IpAddr {
    /// The address that stands for no host.
    pub open spec fn unspecified(self) -> bool {
        match self {
            IpAddr::V4(a) => a == 0,
            IpAddr::V6(hi, lo) => hi == 0 && lo == 0,
        }
    }

    /// An address of a group of hosts: 224.0.0.0/4, or ff00::/8.
    pub open spec fn multicast(self) -> bool {
        match self {
            IpAddr::V4(a) => 224 <= a / 0x1000000 <= 239,
            IpAddr::V6(hi, lo) => hi / 0x100000000000000 == 0xff,
        }
    }

    /// An address of this host: 127.0.0.0/8, or ::1.
    pub open spec fn loopback(self) -> bool {
        match self {
            IpAddr::V4(a) => a / 0x1000000 == 127,
            IpAddr::V6(hi, lo) => hi == 0 && lo == 1,
        }
    }

    pub fn is_unspecified(&self) -> (b: bool)
        ensures
            b == self.unspecified(),
    {
        match *self {
            IpAddr::V4(a) => a == 0,
            IpAddr::V6(hi, lo) => hi == 0 && lo == 0,
        }
    }

    pub fn is_multicast(&self) -> (b: bool)
        ensures
            b == self.multicast(),
    {
        match *self {
            IpAddr::V4(a) => 224 <= a / 0x1000000 && a / 0x1000000 <= 239,
            IpAddr::V6(hi, _) => hi / 0x100000000000000 == 0xff,
        }
    }

    pub fn is_loopback(&self) -> (b: bool)
        ensures
            b == self.loopback(),
    {
        match *self {
            IpAddr::V4(a) => a / 0x1000000 == 127,
            IpAddr::V6(hi, lo) => hi == 0 && lo == 1,
        }
    }
}

/// `a` comes before `b`: version 4 first, then by address, then by port.
pub open spec fn ep_before(a: Endpoint, b: Endpoint) -> bool {
    match (a.ip, b.ip) {
        (IpAddr::V4(x), IpAddr::V4(y)) => x < y || (x == y && a.port < b.port),
        (IpAddr::V4(_), IpAddr::V6(_, _)) => true,
        (IpAddr::V6(_, _), IpAddr::V4(_)) => false,
        (IpAddr::V6(h, l), IpAddr::V6(i, m)) => h < i || (h == i && (l < m || (l == m && a.port
            < b.port))),
    }
}

/// Whether `a` comes before `b`.
pub fn ep_lt(a: Endpoint, b: Endpoint) -> (r: bool)
    ensures
        r == ep_before(a, b),
{
    match (a.ip, b.ip) {
        (IpAddr::V4(x), IpAddr::V4(y)) => x < y || (x == y && a.port < b.port),
        (IpAddr::V4(_), IpAddr::V6(_, _)) => true,
        (IpAddr::V6(_, _), IpAddr::V4(_)) => false,
        (IpAddr::V6(h, l), IpAddr::V6(i, m)) => h < i || (h == i && (l < m || (l == m && a.port
            < b.port))),
    }
}

/// `s` holds each of its endpoints once, in ascending order.
pub open spec fn ascending(s: Seq<Endpoint>) -> bool {
    forall|i: int, j: int| 0 <= i < j < s.len() ==> ep_before(s[i], s[j])
}

/// The endpoints of `v`, each once, in ascending order.
pub fn sorted_unique(v: &Vec<Endpoint>) -> (out: Vec<Endpoint>)
    ensures
        ascending(out@),
        forall|e: Endpoint| out@.contains(e) <==> v@.contains(e),
{
    let mut out: Vec<Endpoint> = Vec::new();
    let mut i: usize = 0;
    while i < v.len()
        invariant
            i <= v.len(),
            ascending(out@),
            forall|e: Endpoint| out@.contains(e) <==> v@.take(i as int).contains(e),
        decreases v.len() - i,
    {
        let e: Endpoint = v[i];
        let ghost before = out@;
        insert_sorted(&mut out, e);
        proof {
            let t = v@.take(i + 1);
            assert(t =~= v@.take(i as int).push(e));
            assert forall|x: Endpoint| out@.contains(x) <==> t.contains(x) by {
                if v@.take(i as int).contains(x) {
                    let k = choose|k: int| 0 <= k < i && v@.take(i as int)[k] == x;
                    assert(t[k] == x);
                }
                if x == e {
                    assert(t[i as int] == e);
                }
                if t.contains(x) {
                    let k = choose|k: int| 0 <= k < t.len() && t[k] == x;
                    if k < i {
                        assert(v@.take(i as int)[k] == x);
                    }
                }
            }
        }
        i += 1;
    }
    proof {
        assert(v@.take(v@.len() as int) =~= v@);
    }
    out
}

/// Puts `e` at its place, unless it is there already.
fn insert_sorted(out: &mut Vec<Endpoint>, e: Endpoint)
    requires
        ascending(old(out)@),
    ensures
        ascending(final(out)@),
        forall|x: Endpoint| final(out)@.contains(x) <==> (old(out)@.contains(x) || x == e),
{
    let ghost before = out@;
    let mut k: usize = 0;
    while k < out.len() && ep_lt(out[k], e)
        invariant
            k <= out.len(),
            out@ == before,
            forall|j: int| 0 <= j < k ==> ep_before(out[j], e),
        decreases out.len() - k,
    {
        k += 1;
    }
    if k < out.len() && out[k] == e {
        proof {
            assert(before[k as int] == e);
        }
        return;
    }
    out.insert(k, e);
    proof {
        let s = out@;
        assert(s =~= before.insert(k as int, e));
        assert forall|i: int, j: int| 0 <= i < j < s.len() implies ep_before(s[i], s[j]) by {
            let bi = if i < k { i } else { i - 1 };
            let bj = if j < k { j } else { j - 1 };
            if i == k {
                assert(s[j] == before[j - 1]);
                assert(!ep_before(before[k as int], e));
                if j - 1 > k {
                    assert(ep_before(before[k as int], before[j - 1]));
                }
            } else if j == k {
                assert(s[i] == before[i]);
            } else {
                assert(s[i] == before[bi]);
                assert(s[j] == before[bj]);
            }
        }
        assert forall|x: Endpoint| s.contains(x) <==> (before.contains(x) || x == e) by {
            if before.contains(x) {
                let i = choose|i: int| 0 <= i < before.len() && before[i] == x;
                assert(s[if i < k { i } else { i + 1 }] == x);
            }
            if x == e {
                assert(s[k as int] == e);
            }
            if s.contains(x) {
                let i = choose|i: int| 0 <= i < s.len() && s[i] == x;
                if i != k {
                    assert(before[if i < k { i } else { i - 1 }] == x);
                }
            }
        }
    }
}

} // verus!
