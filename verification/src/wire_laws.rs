//! What holds of addresses and of payloads on the wire.

use crate::addr;
use crate::addr::{Endpoint, IpAddr};
use crate::engine_state;
use crate::wire;
use crate::wire::ControlTag;
use vstd::bytes::*;
use vstd::prelude::*;

verus! {

/// In a ping the id takes the first eight bytes and the sender's clock the next eight, each
/// low byte first. A longer body is read the same way, and a shorter one not at all.
pub proof fn ping_layout(ping_id: u64, ts: u64, body: Seq<u8>)
    ensures
        wire::ping_bytes(ping_id, ts).len() == 16,
        wire::ping_bytes(ping_id, ts).subrange(0, 8) == spec_u64_to_le_bytes(ping_id),
        wire::ping_bytes(ping_id, ts).subrange(8, 16) == spec_u64_to_le_bytes(ts),
        wire::ping_of(body) is Some <==> body.len() >= 16,
        body.len() >= 16 ==> wire::ping_of(body) == Some(
            (
                spec_u64_from_le_bytes(body.subrange(0, 8)),
                spec_u64_from_le_bytes(body.subrange(8, 16)),
            ),
        ),
{
    lemma_auto_spec_u64_to_from_le_bytes();
    let b = wire::ping_bytes(ping_id, ts);
    assert(b.subrange(0, 8) =~= spec_u64_to_le_bytes(ping_id));
    assert(b.subrange(8, 16) =~= spec_u64_to_le_bytes(ts));
}

/// In a pong the id takes the first eight bytes, the sender's clock the next eight and the
/// delay the last four, each low byte first; the delay as the number that differs from it
/// by a multiple of two to the thirty-second.
pub proof fn pong_layout(ping_id: u64, ts: u64, owd: i32, body: Seq<u8>)
    ensures
        ({
            let b = wire::pong_bytes(ping_id, ts, owd);
            let bits: u32 = if owd < 0 {
                (owd + 0x1_0000_0000) as u32
            } else {
                owd as u32
            };
            &&& b.len() == 20
            &&& b.subrange(0, 8) == spec_u64_to_le_bytes(ping_id)
            &&& b.subrange(8, 16) == spec_u64_to_le_bytes(ts)
            &&& b.subrange(16, 20) == spec_u32_to_le_bytes(bits)
        }),
        wire::pong_of(body) is Some <==> body.len() >= 20,
        body.len() >= 20 ==> ({
            let bits = spec_u32_from_le_bytes(body.subrange(16, 20));
            &&& (wire::pong_of(body)->0).0 == spec_u64_from_le_bytes(body.subrange(0, 8))
            &&& (wire::pong_of(body)->0).1 == spec_u64_from_le_bytes(body.subrange(8, 16))
            &&& (wire::pong_of(body)->0).2 == bits || (wire::pong_of(body)->0).2 == bits
                - 0x1_0000_0000
        }),
{
    lemma_auto_spec_u64_to_from_le_bytes();
    lemma_auto_spec_u32_to_from_le_bytes();
    let b = wire::pong_bytes(ping_id, ts, owd);
    assert(b.subrange(0, 8) =~= spec_u64_to_le_bytes(ping_id));
    assert(b.subrange(8, 16) =~= spec_u64_to_le_bytes(ts));
    assert(b.subrange(16, 20) =~= spec_u32_to_le_bytes(wire::bits_of_i32(owd)));
}

/// A delay that fits is told exactly; one that does not is told as the nearest that does.
/// It grows with the receiver's clock and falls with the sender's.
pub proof fn delays_are_told(now: u64, then: u64)
    requires
        now <= i64::MAX,
        then <= i64::MAX,
    ensures
        ({
            let owd = wire::clamp_i32(wire::signed(now) - wire::signed(then));
            &&& -0x8000_0000 <= now - then <= 0x7fff_ffff ==> owd == now - then
            &&& now - then > 0x7fff_ffff ==> owd == 0x7fff_ffff
            &&& now - then < -0x8000_0000 ==> owd == -0x8000_0000
        }),
{
}

/// Where the network has a key, sync, roster, proxy, kick and certificate packets, and all
/// that is not known, need a signature; nothing else does. What carries an address, a
/// refusal or a ping for the first meeting is sent in the clear.
pub proof fn tags_that_need_a_signature(tag: ControlTag)
    ensures
        !wire::open_tag(tag) <==> tag is Sync || tag is Msmd || tag is Prxy || tag is Kick
            || tag is Ctsig || tag is Other,
        wire::signaling_tag(tag) <==> wire::open_tag(tag) && !(tag is Pmtu || tag is Pmar
            || tag is Brek || tag is Rdys || tag is Mstr || tag is Mctl),
{
}

/// Four bytes are read high byte first.
pub proof fn high_byte_first(a: u8, b: u8, c: u8, d: u8)
    ensures
        wire::be32(a, b, c, d) == 256 * (256 * (256 * a + b) + c) + d,
{
}

/// A datagram is told from STUN by its first two bits, its length and the cookie
/// 21 12 A4 42 in its fifth to eighth byte.
pub proof fn stun_is_told_by_its_cookie(buf: Seq<u8>)
    ensures
        wire::stun_like(buf) <==> buf.len() >= 20 && buf[0] < 0x40 && buf[4] == 0x21 && buf[5] == 0x12
            && buf[6] == 0xa4 && buf[7] == 0x42,
{
    if buf.len() >= 20 {
        let x = wire::be32(buf[4], buf[5], buf[6], buf[7]);
        assert(x == buf[4] * 0x1000000 + buf[5] * 0x10000 + buf[6] * 0x100 + buf[7]);
        assert(0x2112A442 == 0x21 * 0x1000000 + 0x12 * 0x10000 + 0xa4 * 0x100 + 0x42);
    }
}

/// A packet for all hosts is one of IP version 4 whose destination, from its seventeenth
/// byte on, is 255.255.255.255 or lies between 224.0.0.0 and 239.255.255.255.
pub proof fn group_packets_by_destination(pkt: Seq<u8>)
    ensures
        wire::group_packet(pkt) <==> pkt.len() >= 20 && 0x40 <= pkt[0] < 0x50 && ((pkt[16] == 255
            && pkt[17] == 255 && pkt[18] == 255 && pkt[19] == 255) || (224 <= pkt[16] && pkt[16]
            < 240)),
{
    if pkt.len() >= 20 {
        let x = wire::be32(pkt[16], pkt[17], pkt[18], pkt[19]);
        assert(x == pkt[16] * 0x1000000 + pkt[17] * 0x10000 + pkt[18] * 0x100 + pkt[19]);
    }
}

/// Senders at different addresses of version 4 are counted apart, whatever their ports; and
/// so are senders at one address with different ports.
pub proof fn senders_are_counted_apart(a: u32, b: u32, p: u16, q: u16)
    ensures
        (a, p) != (b, q) ==> wire::sender_key(Endpoint { ip: IpAddr::V4(a), port: p })
            != wire::sender_key(Endpoint { ip: IpAddr::V4(b), port: q }),
        a != b ==> wire::ip_key(IpAddr::V4(a)) != wire::ip_key(IpAddr::V4(b)),
{
    let x = a as u64;
    let y = b as u64;
    let s = p as u64;
    let t = q as u64;
    assert(x <= 0xffff_ffff && y <= 0xffff_ffff && s <= 0xffff && t <= 0xffff && (x != y || s != t)
        ==> ((x << 17) | (x >> 47)) ^ s != ((y << 17) | (y >> 47)) ^ t) by (bit_vector);
}

/// All addresses that share the half of version 6 that differs are counted by both halves:
/// a change of one half alone is a change of the number.
pub proof fn both_halves_count(hi: u64, lo: u64, hi2: u64, lo2: u64)
    ensures
        hi != hi2 ==> wire::ip_key(IpAddr::V6(hi, lo)) != wire::ip_key(IpAddr::V6(hi2, lo)),
        lo != lo2 ==> wire::ip_key(IpAddr::V6(hi, lo)) != wire::ip_key(IpAddr::V6(hi, lo2)),
{
    assert(hi != hi2 ==> hi ^ lo != hi2 ^ lo) by (bit_vector);
    assert(lo != lo2 ==> hi ^ lo != hi ^ lo2) by (bit_vector);
}

/// What binds a sealed packet to its ends holds the sender first and the receiver next,
/// each as four bytes with the high one first.
pub proof fn ends_in_order(sender: u32, receiver: u32)
    ensures
        ({
            let b = wire::data_aad_of(sender, receiver);
            &&& b.len() == 8
            &&& b[0] == sender / 0x1000000
            &&& b[1] == (sender / 0x10000) % 256
            &&& b[2] == (sender / 0x100) % 256
            &&& b[3] == sender % 256
            &&& b[4] == receiver / 0x1000000
            &&& b[5] == (receiver / 0x10000) % 256
            &&& b[6] == (receiver / 0x100) % 256
            &&& b[7] == receiver % 256
        }),
{
}

/// The addresses that are handed out in a subnet are those of hosts: in the subnet of the
/// asking node, neither its network nor its broadcast address, and not its first host
/// unless there are two hosts only. All others can be.
pub proof fn hosts_are_handed_out(my: u32, prefix: u8, h: u32)
    requires
        8 <= prefix <= 30,
        wire::min_host(prefix) <= h <= wire::max_host(prefix),
    ensures
        ({
            let k = (32 - prefix) as u32;
            let a = wire::host_addr(my, prefix, h as int);
            &&& a >> k == my >> k
            &&& a & (((1u32 << k) - 1) as u32) == h
            &&& wire::max_host(prefix) == (1u32 << k) - 2
            &&& wire::min_host(prefix) == if prefix == 30 {
                1int
            } else {
                2int
            }
        }),
{
    let k = (32 - prefix) as u32;
    assert(2 <= k <= 24);
    let m = wire::net_mask(prefix);
    assert(m == u32::MAX << k);
    assert(2 <= k <= 24 ==> !(u32::MAX << k) == (((1u32 << k) - 1) as u32) && (1u32 << k) >= 4 && (1u32 << k)
        <= 0x1000000 && ((1u32 << k) == 4 <==> k == 2)) by (bit_vector);
    assert(h < (1u32 << k) - 1);
    let w = 1u32 << k;
    assert(2 <= k <= 24 && w == 1u32 << k && h < w ==> ((my & (u32::MAX << k)) | h) >> k == my >> k && ((my
        & (u32::MAX << k)) | h) & ((w - 1) as u32) == h) by (bit_vector);
}

/// The order of endpoints is one: no endpoint comes before itself, of two different ones
/// one comes first, and the order carries over.
pub proof fn endpoints_are_ordered(a: Endpoint, b: Endpoint, c: Endpoint)
    ensures
        !addr::ep_before(a, a),
        a != b ==> addr::ep_before(a, b) != addr::ep_before(b, a),
        addr::ep_before(a, b) && addr::ep_before(b, c) ==> addr::ep_before(a, c),
        a.ip is V4 && b.ip is V6 ==> addr::ep_before(a, b),
        a.ip == b.ip ==> (addr::ep_before(a, b) <==> a.port < b.port),
        a.ip matches IpAddr::V4(x) ==> (b.ip matches IpAddr::V4(y) ==> x < y ==> addr::ep_before(
            a,
            b,
        )),
        a.ip matches IpAddr::V6(h, l) ==> (b.ip matches IpAddr::V6(i, m) ==> h < i || h == i && l < m
            ==> addr::ep_before(a, b)),
{
}

/// The addresses of version 4 for which no peer stands: 0.0.0.0, those from 224.0.0.0 to
/// 239.255.255.255, and those from 127.0.0.0 to 127.255.255.255.
pub proof fn special_v4_addresses(a: u32)
    ensures
        IpAddr::V4(a).unspecified() <==> a == 0,
        IpAddr::V4(a).multicast() <==> 0xe000_0000 <= a <= 0xefff_ffff,
        IpAddr::V4(a).loopback() <==> 0x7f00_0000 <= a <= 0x7fff_ffff,
{
}

/// The addresses of version 6 for which no peer stands: that of all zeros, those whose
/// first byte is all ones, and that of all zeros but for a one at the end.
pub proof fn special_v6_addresses(hi: u64, lo: u64)
    ensures
        IpAddr::V6(hi, lo).unspecified() <==> hi == 0 && lo == 0,
        IpAddr::V6(hi, lo).multicast() <==> hi >= 0xff00_0000_0000_0000,
        IpAddr::V6(hi, lo).loopback() <==> hi == 0 && lo == 1,
{
}

/// The time that has passed is what has to be added to come to now; none has where the
/// clock was set back.
pub proof fn time_passed(now: u64, then: u64)
    ensures
        then <= now ==> then + engine_state::elapsed(now, then) == now,
        then > now ==> engine_state::elapsed(now, then) == 0,
{
}

} // verus!
