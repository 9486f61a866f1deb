//! How members of a unit claim addresses for themselves.

use crate::addr::IpAddr;
use crate::chance::random_between;
use crate::keys::Key;
use crate::text;
use crate::text::{
    chars_of, ipv4_to_string, join_octets, parse_ipv4, parse_u8, split_chars, split_octets, str_eq,
    str_lt, trim,
};
use vstd::prelude::*;
use vstd::string::*;

verus! {

/// How many host numbers a unit hands out.
pub const UNIT_HOSTS: u16 = 254;

/// The smaller of two node ids wins.
pub open spec fn wins(local: Seq<char>, remote: Seq<char>) -> bool {
    text::str_before(local, remote)
}

/// The local node has to give way.
pub open spec fn loses(local: Seq<char>, remote: Seq<char>) -> bool {
    !wins(local, remote) && local != remote
}

/// Whether the local node wins a conflict over an address.
pub fn node_id_wins(local_node_id: &str, remote_node_id: &str) -> (b: bool)
    ensures
        b == wins(local_node_id@, remote_node_id@),
{
    str_lt(local_node_id, remote_node_id)
}

/// Whether the local node has to give way in a conflict over an address.
pub fn local_loses_vip_conflict(local_node_id: &str, remote_node_id: &str) -> (b: bool)
    ensures
        b == loses(local_node_id@, remote_node_id@),
{
    !node_id_wins(local_node_id, remote_node_id) && !str_eq(local_node_id, remote_node_id)
}

/// The numbers among the first `n` pieces that fit a byte.
pub open spec fn bytes_in(pieces: Seq<Seq<char>>, n: nat) -> Seq<u8>
    decreases n,
{
    if n == 0 {
        Seq::empty()
    } else {
        let rest = bytes_in(pieces, (n - 1) as nat);
        match text::u8_of(pieces[n - 1]) {
            Some(b) => rest.push(b),
            None => rest,
        }
    }
}

/// The numbers between the dots that fit a byte.
pub open spec fn dotted_bytes(s: Seq<char>) -> Seq<u8> {
    let pieces = text::split_on(s, '.');
    bytes_in(pieces, pieces.len())
}

/// The host number that is tried after `k` others.
pub open spec fn host_at(last: u8, k: int) -> int {
    ((last * 37 + 17) % 254 + k) % 254 + 1
}

/// The address that is tried after `k` others.
pub open spec fn candidate(octets: Seq<u8>, k: int) -> u32 {
    text::quad(octets[0], octets[1], octets[2], host_at(octets[3], k) as u8)
}

/// The host `h` of the subnet with these first three bytes, as a dotted quad.
pub open spec fn unit_host_text(octets: Seq<u8>, h: u8) -> Seq<char> {
    text::dec_digits(octets[0] as int) + seq!['.'] + text::dec_digits(octets[1] as int) + seq!['.']
        + text::dec_digits(octets[2] as int) + seq!['.'] + text::dec_digits(h as int)
}

/// The caller says of an address whether it is taken.
pub open spec fn says<F: Fn(&str) -> bool>(f: F, s: Seq<char>, taken: bool) -> bool {
    exists|c: &str| c@ == s && #[trigger] call_ensures(f, (c,), taken)
}

/// Reads the numbers between the dots that fit a byte.
fn octets_of(s: &str) -> (out: Vec<u8>)
    ensures
        out@ == dotted_bytes(s@),
{
    let cs: Vec<char> = chars_of(s);
    let pieces: Vec<Vec<char>> = split_chars(&cs, '.');
    let ghost p = text::pieces_view(pieces@);
    let mut out: Vec<u8> = Vec::new();
    let mut i: usize = 0;
    while i < pieces.len()
        invariant
            i <= pieces@.len(),
            p == text::pieces_view(pieces@),
            out@ == bytes_in(p, i as nat),
        decreases pieces@.len() - i,
    {
        proof {
            assert(p[i as int] == pieces@[i as int]@);
        }
        if let Some(b) = parse_u8(&pieces[i]) {
            out.push(b);
        }
        i += 1;
    }
    out
}

/// The first address with the first three bytes of `base_vip` that is not
/// taken. The search starts at a place that depends on the last byte.
pub fn pick_free_vip<F: Fn(&str) -> bool>(base_vip: &str, occupied: F) -> (out: Option<String>)
    requires
        forall|c: &str| call_requires(occupied, (c,)),
    ensures
        dotted_bytes(base_vip@).len() != 4 ==> out is None,
        dotted_bytes(base_vip@).len() == 4 ==> ({
            let o = dotted_bytes(base_vip@);
            match out {
                Some(v) => exists|k: int|
                    0 <= k < UNIT_HOSTS && v@ == text::ipv4_text(#[trigger] candidate(o, k))
                        && says(occupied, v@, false) && forall|j: int|
                        0 <= j < k ==> says(
                            occupied,
                            text::ipv4_text(#[trigger] candidate(o, j)),
                            true,
                        ),
                None => forall|j: int|
                    0 <= j < UNIT_HOSTS ==> says(
                        occupied,
                        text::ipv4_text(#[trigger] candidate(o, j)),
                        true,
                    ),
            }
        }),
        out is Some <== dotted_bytes(base_vip@).len() == 4 && exists|h: u8|
            1 <= h <= 254 && !says(
                occupied,
                #[trigger] unit_host_text(dotted_bytes(base_vip@), h),
                true,
            ),
        out matches Some(v) ==> exists|h: u8|
            1 <= h <= 254 && v@ == #[trigger] unit_host_text(dotted_bytes(base_vip@), h) && says(
                occupied,
                v@,
                false,
            ),
{
    let octets: Vec<u8> = octets_of(base_vip);
    if octets.len() != 4 {
        return None;
    }
    let ghost o = octets@;
    let start: u16 = (octets[3] as u16 * 37 + 17) % UNIT_HOSTS;
    let mut k: u16 = 0;
    while k < UNIT_HOSTS
        invariant
            k <= UNIT_HOSTS,
            octets@.len() == 4,
            o == octets@,
            o == dotted_bytes(base_vip@),
            start == (o[3] * 37 + 17) % 254,
            forall|c: &str| call_requires(occupied, (c,)),
            forall|j: int|
                0 <= j < k ==> says(occupied, text::ipv4_text(#[trigger] candidate(o, j)), true),
        decreases UNIT_HOSTS - k,
    {
        let host: u8 = ((start + k) % UNIT_HOSTS + 1) as u8;
        let ip: u32 = join_octets(octets[0], octets[1], octets[2], host);
        proof {
            assert(ip == candidate(o, k as int));
        }
        let cand: String = ipv4_to_string(ip);
        let taken: bool = occupied(cand.as_str());
        proof {
            assert(says(occupied, cand@, taken));
        }
        if !taken {
            proof {
                candidate_text(o, k as int);
            }
            return Some(cand);
        }
        k += 1;
    }
    proof {
        assert forall|h: u8| 1 <= h <= 254 implies says(
            occupied,
            #[trigger] unit_host_text(o, h),
            true,
        ) by {
            let j = (h - 1 - start + 254) % 254;
            candidate_text(o, j);
            assert(host_at(o[3], j) == h);
            assert(says(occupied, text::ipv4_text(candidate(o, j)), true));
        }
    }
    None
}

/// How the address is written that is tried after `k` others.
proof fn candidate_text(octets: Seq<u8>, k: int)
    requires
        octets.len() == 4,
        0 <= k < UNIT_HOSTS,
    ensures
        1 <= host_at(octets[3], k) <= 254,
        text::ipv4_text(candidate(octets, k)) == unit_host_text(
            octets,
            host_at(octets[3], k) as u8,
        ),
{
    text::octets_of_quad(octets[0], octets[1], octets[2], host_at(octets[3], k) as u8);
}

/// The address can be a member's: it is an address of one host, and neither the
/// first nor the last of its /24.
pub open spec fn claimable(ip: u32) -> bool {
    let a = IpAddr::V4(ip);
    &&& !a.unspecified()
    &&& ip != u32::MAX
    &&& !a.multicast()
    &&& !a.loopback()
    &&& text::octet(ip, 3) != 0
    &&& text::octet(ip, 3) != 255
}

/// The string is an address that can be a member's.
pub open spec fn claim_ok(vip: Seq<char>) -> bool {
    text::ipv4_of(vip) matches Some(ip) && claimable(ip)
}

fn is_claimable(ip: u32) -> (b: bool)
    ensures
        b == claimable(ip),
{
    let a = IpAddr::V4(ip);
    let last: u8 = split_octets(ip).3;
    !a.is_unspecified() && ip != u32::MAX && !a.is_multicast() && !a.is_loopback() && last != 0
        && last != 255
}

/// Whether the string is an address that can be a member's.
pub fn claim_vip_valid(vip: &str) -> (b: bool)
    ensures
        b == claim_ok(vip@),
{
    match parse_ipv4(vip) {
        Some(ip) => is_claimable(ip),
        None => false,
    }
}

/// The address lies in the unit's subnet.
pub open spec fn in_unit(key: Key, ip: u32) -> bool {
    text::octet(ip, 0) == key.subnet24.0 && text::octet(ip, 1) == key.subnet24.1 && text::octet(
        ip,
        2,
    ) == key.subnet24.2
}

/// The string is an address that can be a member's of the unit.
pub open spec fn unit_claim_ok(key: Key, vip: Seq<char>) -> bool {
    claim_ok(vip) && in_unit(key, text::ipv4_of(vip)->0)
}

/// Whether the string is an address that can be a member's of the unit.
pub fn vip_in_floatunit_subnet(key: &Key, vip: &str) -> (b: bool)
    ensures
        b == unit_claim_ok(*key, vip@),
{
    match parse_ipv4(vip) {
        Some(ip) => {
            let (a, b, c, _) = split_octets(ip);
            is_claimable(ip) && a == key.subnet24.0 && b == key.subnet24.1 && c == key.subnet24.2
        },
        None => false,
    }
}

/// Whether a claim from the network can be taken.
pub fn accept_wire_claim_vip(unit_key: Option<&Key>, vip: &str) -> (b: bool)
    ensures
        b == match unit_key {
            Some(k) => unit_claim_ok(*k, vip@),
            None => claim_ok(vip@),
        },
{
    match unit_key {
        Some(k) => vip_in_floatunit_subnet(k, vip),
        None => claim_vip_valid(vip),
    }
}

/// The address of a host of the unit; the first stands in for those that no host
/// can have.
pub open spec fn member_ip(key: Key, host: u8) -> u32 {
    text::quad(
        key.subnet24.0,
        key.subnet24.1,
        key.subnet24.2,
        if host == 0 || host == 255 {
            1
        } else {
            host
        },
    )
}

/// The address of a host of the unit, as a number.
pub fn member_host_ipv4(key: &Key, host: u8) -> (ip: u32)
    ensures
        ip == member_ip(*key, host),
{
    let h: u8 = if host == 0 || host == 255 {
        1
    } else {
        host
    };
    join_octets(key.subnet24.0, key.subnet24.1, key.subnet24.2, h)
}

/// The address of a host of the unit.
pub fn member_host_vip(key: &Key, host: u8) -> (out: String)
    ensures
        out@ == text::ipv4_text(member_ip(*key, host)),
{
    ipv4_to_string(member_host_ipv4(key, host))
}

/// The unit's subnet can hold members.
pub open spec fn unit_usable(key: Key) -> bool {
    claimable(member_ip(key, 1))
}

/// The address of some host of the unit, by chance.
pub fn random_member_vip_in_unit(key: &Key) -> (out: String)
    ensures
        exists|host: u8|
            1 <= host <= 254 && out@ == text::ipv4_text(#[trigger] member_ip(*key, host)),
        unit_usable(*key) ==> unit_claim_ok(*key, out@),
{
    let h: u16 = random_between(1, UNIT_HOSTS);
    let host: u8 = h as u8;
    proof {
        if unit_usable(*key) {
            member_hosts_are_claims(*key, host);
        }
    }
    member_host_vip(key, host)
}

/// The address that a member uses: the one that it had, if the unit still has
/// it, or another one by chance. Tells whether it is another one.
pub fn resolve_member_vip(key: &Key, existing: &str) -> (out: (String, bool))
    ensures
        ({
            let had = text::trimmed(existing@);
            if unit_claim_ok(*key, had) {
                out.0@ == had && !out.1
            } else {
                out.1 && exists|host: u8|
                    1 <= host <= 254 && out.0@ == text::ipv4_text(
                        #[trigger] member_ip(*key, host),
                    )
            }
        }),
        unit_usable(*key) ==> unit_claim_ok(*key, out.0@),
{
    let had: &str = trim(existing);
    if vip_in_floatunit_subnet(key, had) {
        return (had.to_owned(), false);
    }
    (random_member_vip_in_unit(key), true)
}

/// Every host of a usable unit can be a member.
pub proof fn member_hosts_are_claims(key: Key, host: u8)
    requires
        unit_usable(key),
        1 <= host <= 254,
    ensures
        claimable(member_ip(key, host)),
        in_unit(key, member_ip(key, host)),
        unit_claim_ok(key, text::ipv4_text(member_ip(key, host))),
{
    let (a, b, c) = key.subnet24;
    text::octets_of_quad(a, b, c, 1);
    text::octets_of_quad(a, b, c, host);
    text::ipv4_text_reads_back(member_ip(key, host));
}

/// The search for a free address covers the unit: every host number from 1 to 254 is
/// tried, each of them once, and no other.
pub proof fn search_covers_the_unit(octets: Seq<u8>, host: u8)
    requires
        octets.len() == 4,
        1 <= host <= 254,
    ensures
        exists|k: int|
            0 <= k < UNIT_HOSTS && #[trigger] candidate(octets, k) == octets[0] * 0x100_0000
                + octets[1] * 0x1_0000 + octets[2] * 0x100 + host,
        forall|j: int, k: int|
            0 <= j < k < UNIT_HOSTS ==> #[trigger] candidate(octets, j) != #[trigger] candidate(
                octets,
                k,
            ),
        forall|k: int|
            0 <= k < UNIT_HOSTS ==> octets[0] * 0x100_0000 + octets[1] * 0x1_0000 + octets[2]
                * 0x100 < #[trigger] candidate(octets, k) < octets[0] * 0x100_0000 + octets[1]
                * 0x1_0000 + octets[2] * 0x100 + 255,
{
    let start = (octets[3] * 37 + 17) % 254;
    let k = (host - 1 - start + 254) % 254;
    assert(host_at(octets[3], k) == host);
    assert(candidate(octets, k) == octets[0] * 0x100_0000 + octets[1] * 0x1_0000 + octets[2]
        * 0x100 + host);
    assert forall|j: int| 0 <= j < UNIT_HOSTS implies #[trigger] candidate(octets, j)
        == octets[0] * 0x100_0000 + octets[1] * 0x1_0000 + octets[2] * 0x100 + host_at(
        octets[3],
        j,
    ) && 1 <= host_at(octets[3], j) <= 254 by {}
    assert forall|i: int, j: int| 0 <= i < j < UNIT_HOSTS implies #[trigger] candidate(octets, i)
        != #[trigger] candidate(octets, j) by {
        assert(host_at(octets[3], i) != host_at(octets[3], j));
    }
}

/// A node never wins a conflict with itself, and of three nodes one wins against
/// both others: conflicts have one winner, the node with the smallest id.
pub proof fn conflicts_have_one_winner(a: Seq<char>, b: Seq<char>, c: Seq<char>)
    ensures
        !wins(a, a) && !loses(a, a),
        wins(a, b) && wins(b, c) ==> wins(a, c),
        a != b ==> wins(a, b) || wins(b, a),
        wins(a, b) ==> text::str_before(a, b),
{
    text::str_before_irreflexive(a);
    if a != b {
        text::str_before_total(a, b);
    }
    if wins(a, b) && wins(b, c) {
        text::str_before_transitive(a, b, c);
    }
}

/// Of two nodes that claim the same address, one gives way and the other does
/// not.
pub proof fn one_node_gives_way(a: Seq<char>, b: Seq<char>)
    requires
        a != b,
    ensures
        loses(a, b) == !loses(b, a),
        loses(a, b) == wins(b, a),
{
    text::str_before_total(a, b);
    text::str_before_irreflexive(a);
    if text::str_before(a, b) && text::str_before(b, a) {
        text::str_before_transitive(a, b, a);
    }
}

} // verus!
